use heft::size::format_size;

fn float_reference(bytes: u64) -> (String, String) {
    const KIB: u64 = 1024;
    const MIB: u64 = 1024 * KIB;
    const GIB: u64 = 1024 * MIB;
    const TIB: u64 = 1024 * GIB;
    if bytes >= TIB {
        (format!("{:.1}", bytes as f64 / TIB as f64), "TiB".into())
    } else if bytes >= GIB {
        (format!("{:.1}", bytes as f64 / GIB as f64), "GiB".into())
    } else if bytes >= MIB {
        (format!("{}", bytes / MIB), "MiB".into())
    } else if bytes >= KIB {
        (format!("{}", bytes / KIB), "KiB".into())
    } else {
        (format!("{}", bytes), "B".into())
    }
}

fn probes() -> Vec<u64> {
    let mut v: Vec<u64> = Vec::new();
    let units: [u64; 3] = [1 << 20, 1 << 30, 1 << 40];
    for &u in units.iter() {
        for tenth in 0..400u64 {
            let base = u + u / 20 * tenth;
            for delta in [0u64, 1, 2, 3] {
                v.push(base + delta);
                v.push(base - delta);
            }
        }
        v.push(u + u / 4);
        v.push(u + 3 * u / 4);
        v.push(u * 3 / 2 + u / 20);
    }
    let mut x: u64 = 0x9E37_79B9_7F4A_7C15;
    for _ in 0..20000 {
        x ^= x << 13;
        x ^= x >> 7;
        x ^= x << 17;
        v.push(x);
        v.push(x >> 20);
        v.push(x >> 30);
        v.push(x >> 40);
    }
    for shift in 50..64u32 {
        let p = 1u64 << shift;
        for d in 0..5u64 {
            v.push(p + d);
            v.push(p - d);
            v.push(p | (1u64 << (shift - 53).min(10)) | d);
        }
    }
    v.push(u64::MAX);
    v.push(u64::MAX - 1);
    v.push(u64::MAX - 2048);
    v.push(0);
    v.push(1);
    v.push(1023);
    v.push(1024);
    v
}

#[test]
fn format_size_matches_float_formatting() {
    for b in probes() {
        let (n, u) = format_size(b);
        let (rn, ru) = float_reference(b);
        assert_eq!((n.clone(), u.clone()), (rn, ru), "bytes = {}", b);
    }
}

#[test]
fn format_size_small_values() {
    assert_eq!(format_size(0), ("0".to_string(), "B".to_string()));
    assert_eq!(format_size(1023), ("1023".to_string(), "B".to_string()));
    assert_eq!(format_size(1024), ("1".to_string(), "KiB".to_string()));
    assert_eq!(format_size(1048575), ("1023".to_string(), "KiB".to_string()));
    assert_eq!(format_size(1048576), ("1".to_string(), "MiB".to_string()));
    assert_eq!(format_size(935329792), ("892".to_string(), "MiB".to_string()));
    assert_eq!(format_size(4509715456), ("4.2".to_string(), "GiB".to_string()));
}
