use deltective::text::{format_bytes, push_decimal, push_fixed, round_div_exec};

#[test]
fn bytes_below_a_kilobyte() {
    assert_eq!(format_bytes(0), "0.00 B");
    assert_eq!(format_bytes(1023), "1023.00 B");
}

#[test]
fn bytes_in_larger_units() {
    assert_eq!(format_bytes(1024), "1.00 KB");
    assert_eq!(format_bytes(1536), "1.50 KB");
    assert_eq!(format_bytes(1048575), "1024.00 KB");
    assert_eq!(format_bytes(5 * 1024 * 1024), "5.00 MB");
    assert_eq!(format_bytes(10 * 1024 * 1024 * 1024), "10.00 GB");
    assert_eq!(format_bytes(3 * 1024i64.pow(4)), "3.00 TB");
    assert_eq!(format_bytes(2 * 1024i64.pow(5)), "2.00 PB");
    assert_eq!(format_bytes(2048 * 1024i64.pow(5)), "2048.00 PB");
}

#[test]
fn bytes_negative() {
    assert_eq!(format_bytes(-5), "-5.00 B");
}

#[test]
fn rounding_half_to_even() {
    assert_eq!(round_div_exec(5, 2), 2);
    assert_eq!(round_div_exec(7, 2), 4);
    assert_eq!(round_div_exec(2, 3), 1);
    assert_eq!(round_div_exec(1, 3), 0);
    assert_eq!(format_bytes(1024 + 5), "1.00 KB");
}

#[test]
fn decimals_and_fixed_point() {
    let mut s = String::new();
    push_decimal(&mut s, 1234567);
    assert_eq!(s, "1234567");
    let mut t = String::new();
    push_fixed(&mut t, 1205, 2);
    assert_eq!(t, "12.05");
    let mut u = String::new();
    push_fixed(&mut u, 7, 1);
    assert_eq!(u, "0.7");
    let mut v = String::new();
    push_fixed(&mut v, 42, 0);
    assert_eq!(v, "42");
    let mut w = String::new();
    push_fixed(&mut w, 1234567, 5);
    assert_eq!(w, "12.34567");
    let mut x = String::new();
    push_fixed(&mut x, 7, 5);
    assert_eq!(x, "0.00007");
}
