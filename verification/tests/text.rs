use tresor::text::{comes_before, decimal, same_text};

#[test]
fn decimal_writes_numerals() {
    assert_eq!(decimal(0), "0");
    assert_eq!(decimal(7), "7");
    assert_eq!(decimal(10), "10");
    assert_eq!(decimal(1234), "1234");
    assert_eq!(decimal(1700000000), "1700000000");
    assert_eq!(decimal(u64::MAX), "18446744073709551615");
}

#[test]
fn decimal_agrees_with_the_standard_numeral() {
    let mut n: u64 = 1;
    for _ in 0..64 {
        assert_eq!(decimal(n), n.to_string());
        assert_eq!(decimal(n - 1), (n - 1).to_string());
        n = n.wrapping_mul(3).wrapping_add(1);
    }
    for n in 0..1100u64 {
        assert_eq!(decimal(n), n.to_string());
    }
}

#[test]
fn same_text_compares_contents() {
    assert!(same_text("", ""));
    assert!(same_text("abc", "abc"));
    assert!(same_text("ünï", "ünï"));
    assert!(!same_text("abc", "abd"));
    assert!(!same_text("abc", "ab"));
    assert!(!same_text("", "a"));
}

#[test]
fn comes_before_is_the_order_of_bytes() {
    let texts = ["", "a", "ab", "abc", "b", "B", "b1", "b10", "b2", "é", "z", "zz", "\u{10000}"];
    for a in texts {
        for b in texts {
            assert_eq!(comes_before(a, b), a < b);
        }
    }
}

#[test]
fn comes_before_is_a_strict_total_order() {
    let texts = ["", "a", "ab", "b", "b1", "b2", "é"];
    for a in texts {
        assert!(!comes_before(a, a));
        for b in texts {
            assert!(a == b || comes_before(a, b) || comes_before(b, a));
            for c in texts {
                if comes_before(a, b) && comes_before(b, c) {
                    assert!(comes_before(a, c));
                }
            }
        }
    }
}
