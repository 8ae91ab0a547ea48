use k256::ecdsa::signature::hazmat::PrehashVerifier as _;
use primitive_bench::hardware::{
    cpu_model, cpu_model_from_cpuinfo, is_whitespace, mem_total_from_meminfo, memory_size, memsize_from_sysctl,
    parse_u64, split_lines, trim_chars, MemorySize,
};
use primitive_bench::payload::{payload_for, prepare_payloads, usize_to_le_bytes};
use primitive_bench::primitive::{primitives, Primitive, ScenarioTag};
use primitive_bench::report::{csv_report, decimal_bytes, markdown_report, HwSpec, Row};
use primitive_bench::runs::{max_count, sorted_samples, Drift, RunStats};
use sha2::Digest as _;

fn chars(s: &str) -> Vec<char> {
    s.chars().collect()
}

fn text(v: Vec<char>) -> String {
    v.into_iter().collect()
}

fn row(p: &str, n: u32, cycles: u64, gas: u64, ms: u128) -> Row {
    Row { primitive: p.to_string(), n, cycles, prover_gas: gas, exec_ms_median: ms }
}

#[test]
fn primitive_names() {
    assert_eq!(Primitive::Keccak.name(), "keccak256");
    assert_eq!(Primitive::Sha256.name(), "sha256");
    assert_eq!(Primitive::Ecdsa.name(), "ecdsa-secp256k1");
    assert_eq!(Primitive::Eddsa.name(), "eddsa-ed25519");
    assert_eq!(primitives(), [Primitive::Keccak, Primitive::Sha256, Primitive::Ecdsa, Primitive::Eddsa]);
}

#[test]
fn scenario_tags_follow_primitives() {
    assert_eq!(ScenarioTag::from(Primitive::Keccak), ScenarioTag::Keccak);
    assert_eq!(ScenarioTag::from(Primitive::Sha256), ScenarioTag::Sha256);
    assert_eq!(ScenarioTag::from(Primitive::Ecdsa), ScenarioTag::Ecdsa);
    assert_eq!(ScenarioTag::from(Primitive::Eddsa), ScenarioTag::Eddsa);
}

#[test]
fn seed_is_sha256_of_label() {
    let p = prepare_payloads(0);
    let expected: [u8; 32] = sha2::Sha256::digest(b"bench-seed").into();
    assert_eq!(p.seed, expected);
    assert!(p.ecdsa.is_empty());
    assert!(p.eddsa.is_empty());
}

#[test]
fn ecdsa_payload_layout() {
    let p = prepare_payloads(3);
    assert_eq!(p.ecdsa.len(), 3 * 129);
    let pk = &p.ecdsa[..33];
    assert!(pk[0] == 2 || pk[0] == 3);
    let key = k256::ecdsa::VerifyingKey::from_sec1_bytes(pk).unwrap();
    for i in 0..3usize {
        let r = &p.ecdsa[i * 129..(i + 1) * 129];
        assert_eq!(&r[..33], pk);
        let msg: [u8; 32] = sha2::Sha256::digest([&p.seed[..], &i.to_le_bytes()].concat()).into();
        assert_eq!(&r[97..], &msg[..]);
        let sig = k256::ecdsa::Signature::from_slice(&r[33..97]).unwrap();
        assert!(key.verify_prehash(&msg, &sig).is_ok());
    }
}

#[test]
fn ecdsa_payload_is_deterministic() {
    assert_eq!(prepare_payloads(2).ecdsa, prepare_payloads(2).ecdsa);
    assert_eq!(prepare_payloads(3).ecdsa[..2 * 129], prepare_payloads(2).ecdsa[..]);
    assert_eq!(prepare_payloads(3).eddsa[..2 * 128], prepare_payloads(2).eddsa[..]);
    assert_eq!(prepare_payloads(1).seed, prepare_payloads(5).seed);
    assert_eq!(prepare_payloads(2).eddsa, prepare_payloads(2).eddsa);
}

#[test]
fn eddsa_payload_layout() {
    let p = prepare_payloads(3);
    assert_eq!(p.eddsa.len(), 3 * 128);
    let sk_bytes: [u8; 32] = sha2::Sha256::digest([&p.seed[..], b"eddsa"].concat()).into();
    let sk = ed25519_dalek::SigningKey::from_bytes(&sk_bytes);
    for i in 0..3usize {
        let r = &p.eddsa[i * 128..(i + 1) * 128];
        assert_eq!(&r[..32], &sk.verifying_key().to_bytes()[..]);
        let msg: [u8; 32] = sha2::Sha256::digest([&p.seed[..], b"-ed-", &i.to_le_bytes()].concat()).into();
        assert_eq!(&r[96..], &msg[..]);
        assert_eq!(&r[32..96], &ed25519_dalek::Signer::sign(&sk, &msg).to_bytes()[..]);
    }
}

#[test]
fn payload_for_each_primitive() {
    let p = prepare_payloads(3);
    assert_eq!(payload_for(Primitive::Keccak, 3, &p), &p.seed[..]);
    assert_eq!(payload_for(Primitive::Sha256, 1, &p), &p.seed[..]);
    assert_eq!(payload_for(Primitive::Ecdsa, 2, &p), &p.ecdsa[..258]);
    assert_eq!(payload_for(Primitive::Eddsa, 1, &p), &p.eddsa[..128]);
    assert_eq!(payload_for(Primitive::Eddsa, 0, &p).len(), 0);
}

#[test]
fn le_bytes_match_std() {
    for x in [0usize, 1, 255, 256, 0x0102_0304, usize::MAX] {
        assert_eq!(usize_to_le_bytes(x), x.to_le_bytes().to_vec());
    }
}

#[test]
fn decimal_digits() {
    assert_eq!(decimal_bytes(0), b"0".to_vec());
    assert_eq!(decimal_bytes(9), b"9".to_vec());
    assert_eq!(decimal_bytes(10), b"10".to_vec());
    assert_eq!(decimal_bytes(1234567), b"1234567".to_vec());
    assert_eq!(decimal_bytes(u128::MAX), u128::MAX.to_string().into_bytes());
}

#[test]
fn csv_report_text() {
    let rows = vec![row("keccak256", 1, 1000, 20, 3), row("keccak256", 100, 5950, 700, 12)];
    let csv = String::from_utf8(csv_report(&rows)).unwrap();
    assert_eq!(
        csv,
        "primitive,n,cycles,prover_gas,exec_ms_median\nkeccak256,1,1000,20,3\nkeccak256,100,5950,700,12\n"
    );
    assert_eq!(String::from_utf8(csv_report(&vec![])).unwrap(), "primitive,n,cycles,prover_gas,exec_ms_median\n");
}

fn hw() -> HwSpec {
    HwSpec { cpu: "Test CPU".to_string(), ram: "8.0 GiB".to_string(), os: "Linux 6.1 x86_64".to_string() }
}

#[test]
fn markdown_report_text() {
    let rows = vec![
        row("keccak256", 1, 1000, 20, 3),
        row("keccak256", 100, 5950, 700, 12),
        row("sha256", 1, 900, 10, 2),
        row("sha256", 100, 800, 11, 2),
        row("ecdsa-secp256k1", 100, 4000, 50, 9),
    ];
    let md = String::from_utf8(markdown_report(&rows, &hw())).unwrap();
    let expected = "# research demo bench\n\n\
SP1 v6.2.2. `client.execute()` only; no proof gen.\n\n\
Hardware:\n\n\
- CPU: Test CPU\n\
- RAM: 8.0 GiB\n\
- OS:  Linux 6.1 x86_64\n\n\
Cycles + prover gas are deterministic for a given (ELF, stdin); spread is zero by construction. \
Only execution wall-clock varies — `exec_ms_median` is the median of \
`--runs` host-side timings.\n\n\
| primitive | N | cycles | prover gas | exec ms | per-op cycles |\n\
|---|---:|---:|---:|---:|---:|\n\
| keccak256 | 1 | 1000 | 20 | 3 | - |\n\
| keccak256 | 100 | 5950 | 700 | 12 | 50 |\n\
| sha256 | 1 | 900 | 10 | 2 | - |\n\
| sha256 | 100 | 800 | 11 | 2 | 0 |\n\
| ecdsa-secp256k1 | 100 | 4000 | 50 | 9 | - |\n\
\nPer-op cycles = (cycles at N=100 - cycles at N=1) / 99. \
Strips program-init + IO + commit overhead (constant in N for hashes; \
constant in N for sigs too since the payload is read via read_vec, not bincode-walked).\n";
    assert_eq!(md, expected);
}

#[test]
fn markdown_per_op_uses_last_rows() {
    let rows = vec![row("x", 1, 100, 0, 0), row("x", 100, 10000, 0, 0), row("x", 1, 199, 0, 0)];
    let md = String::from_utf8(markdown_report(&rows, &hw())).unwrap();
    assert!(md.contains("| x | 100 | 10000 | 0 | 0 | 99 |\n"));
}

#[test]
fn runs_pin_first_counts_and_take_median() {
    let mut s = RunStats::new();
    assert_eq!(s.record(500, 60, 30), Ok(()));
    assert_eq!(s.record(500, 60, 10), Ok(()));
    assert_eq!(s.record(500, 60, 20), Ok(()));
    assert_eq!(s.len(), 3);
    assert_eq!(s.median_ms(), 20);
    let r = s.into_row("sha256".to_string(), 100);
    assert_eq!((r.primitive.as_str(), r.n, r.cycles, r.prover_gas, r.exec_ms_median), ("sha256", 100, 500, 60, 20));
}

#[test]
fn runs_refuse_drift() {
    let mut s = RunStats::new();
    assert_eq!(s.record(500, 60, 1), Ok(()));
    assert_eq!(s.record(501, 61, 2), Err(Drift::Cycles { pinned: 500, observed: 501 }));
    assert_eq!(s.record(500, 61, 2), Err(Drift::Gas { pinned: 60, observed: 61 }));
    assert_eq!(s.len(), 1);
    assert_eq!(s.median_ms(), 1);
}

#[test]
fn median_of_even_count_is_upper_middle() {
    let mut s = RunStats::new();
    for ms in [4u128, 1, 3, 2] {
        s.record(7, 7, ms).unwrap();
    }
    assert_eq!(s.median_ms(), 3);
    assert_eq!(sorted_samples(&vec![4, 1, 3, 2, 3]), vec![1, 2, 3, 3, 4]);
}

#[test]
fn max_count_of_repetitions() {
    assert_eq!(max_count(&vec![1, 100]), 100);
    assert_eq!(max_count(&vec![7, 3, 5]), 7);
    assert_eq!(max_count(&vec![]), 1);
}

#[test]
fn whitespace_class() {
    for c in ['\t', '\n', '\u{b}', '\u{c}', '\r', ' ', '\u{85}', '\u{a0}', '\u{2003}', '\u{3000}', 'a', '0', '\u{200b}'] {
        assert_eq!(is_whitespace(c), c.is_whitespace(), "{:?}", c);
    }
}

#[test]
fn trim_like_str_trim() {
    for s in ["", "  ", " a b ", "\u{a0}x\r\n", "x"] {
        assert_eq!(text(trim_chars(&chars(s))), s.trim());
    }
}

#[test]
fn lines_like_str_lines() {
    for s in ["", "a", "a\n", "a\r\nb", "a\n\nb\r", "\n", "x\ry\n"] {
        let ours: Vec<String> = split_lines(&chars(s)).into_iter().map(text).collect();
        let std: Vec<String> = s.lines().map(|l| l.to_string()).collect();
        assert_eq!(ours, std, "{:?}", s);
    }
}

#[test]
fn parse_like_std() {
    for s in ["0", "42", "+7", "+", "", "-1", "1a", "18446744073709551615", "18446744073709551616", " 1"] {
        assert_eq!(parse_u64(&chars(s)), s.parse::<u64>().ok(), "{:?}", s);
    }
}

#[test]
fn cpu_model_from_proc_cpuinfo() {
    let info = "processor\t: 0\nvendor_id\t: GenuineIntel\nmodel\t\t: 85\nmodel name\t: Intel(R) Xeon(R) CPU @ 2.20GHz\nmodel name\t: other\n";
    assert_eq!(cpu_model_from_cpuinfo(&chars(info)).map(text), Some("Intel(R) Xeon(R) CPU @ 2.20GHz".to_string()));
    assert_eq!(cpu_model_from_cpuinfo(&chars("model name without colon\nmodel name: a:b\n")).map(text), Some("a".to_string()));
    assert_eq!(cpu_model_from_cpuinfo(&chars("processor: 0\n")), None);
}

#[test]
fn mem_total_from_proc_meminfo() {
    let info = "MemFree:  100 kB\nMemTotal:       16318412 kB\nMemTotal: 5 kB\n";
    assert_eq!(mem_total_from_meminfo(&chars(info)), Some(16318412));
    assert_eq!(mem_total_from_meminfo(&chars("MemTotal: lots\nMemTotal:   \nMemTotal: 12\n")), Some(12));
    assert_eq!(mem_total_from_meminfo(&chars("SwapTotal: 3 kB\n")), None);
}

#[test]
fn memsize_from_sysctl_output() {
    assert_eq!(memsize_from_sysctl(&chars("17179869184\n")), Some(17179869184));
    assert_eq!(memsize_from_sysctl(&chars("oops")), None);
}

#[test]
fn hardware_one_line() {
    assert_eq!(String::from_utf8(hw().one_line()).unwrap(), "Test CPU | 8.0 GiB | Linux 6.1 x86_64");
}

#[test]
fn markdown_lines_do_not_depend_on_row_order() {
    let rows = vec![
        row("x", 1, 100, 1, 2),
        row("y", 100, 5000, 3, 4),
        row("x", 100, 10000, 5, 6),
        row("y", 1, 50, 7, 8),
    ];
    let sigma = [2usize, 3, 0, 1];
    let rows2: Vec<Row> = sigma.iter().map(|&i| {
        let r = &rows[i];
        row(&r.primitive, r.n, r.cycles, r.prover_gas, r.exec_ms_median)
    }).collect();
    let md = String::from_utf8(markdown_report(&rows, &hw())).unwrap();
    let md2 = String::from_utf8(markdown_report(&rows2, &hw())).unwrap();
    let table = |t: &str| -> Vec<String> { t.lines().filter(|l| l.starts_with("| x") || l.starts_with("| y")).map(|l| l.to_string()).collect() };
    let (lines, lines2) = (table(&md), table(&md2));
    assert_eq!(lines.len(), 4);
    for k in 0..4 {
        assert_eq!(lines2[k], lines[sigma[k]]);
    }
    assert_eq!(lines2[0], "| x | 100 | 10000 | 5 | 6 | 100 |");
    assert_eq!(lines[1], "| y | 100 | 5000 | 3 | 4 | 50 |");
}

#[test]
fn memory_size_prefers_sysctl() {
    let sysctl = chars("17179869184\n");
    let meminfo = chars("MemTotal:       16318412 kB\n");
    assert_eq!(memory_size(Some(&sysctl), Some(&meminfo)), Some(MemorySize::Bytes(17179869184)));
    let bad = chars("not a number");
    assert_eq!(memory_size(Some(&bad), Some(&meminfo)), Some(MemorySize::KiB(16318412)));
    assert_eq!(memory_size(None, Some(&meminfo)), Some(MemorySize::KiB(16318412)));
    assert_eq!(memory_size(None, Some(&chars("SwapTotal: 3 kB\n"))), None);
    assert_eq!(memory_size(None, None), None);
}

#[test]
fn cpu_model_prefers_sysctl() {
    let sysctl = chars("Apple M2");
    let info = chars("model name\t: Intel(R) Xeon(R)\n");
    assert_eq!(cpu_model(Some(&sysctl), Some(&info)).map(text), Some("Apple M2".to_string()));
    assert_eq!(cpu_model(None, Some(&info)).map(text), Some("Intel(R) Xeon(R)".to_string()));
    assert_eq!(cpu_model(None, Some(&chars("processor: 0\n"))), None);
    assert_eq!(cpu_model(None, None), None);
}
