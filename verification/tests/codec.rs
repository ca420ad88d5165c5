use priority_codec::Priority;

fn p(urgency: u8, incremental: bool) -> Priority {
    Priority { urgency, incremental }
}

#[test]
fn empty_input_gives_default() {
    assert_eq!(Priority::from_wire(""), Priority::default());
    assert_eq!(Priority::from_wire(""), p(1, false));
}

#[test]
fn default_value() {
    assert_eq!(Priority::default(), p(1, false));
}

#[test]
fn bare_incremental() {
    assert_eq!(Priority::from_wire("i"), p(1, true));
}

#[test]
fn urgency_only() {
    assert_eq!(Priority::from_wire("u=3"), p(3, false));
}

#[test]
fn urgency_each_level() {
    for u in 0..=7u8 {
        let text = format!("u={}", u);
        assert_eq!(Priority::from_wire(&text), p(u, false));
    }
}

#[test]
fn order_of_recognized_tokens_is_irrelevant() {
    assert_eq!(Priority::from_wire("u=3,i"), p(3, true));
    assert_eq!(Priority::from_wire("i,u=3"), p(3, true));
}

#[test]
fn out_of_range_urgency_clamps() {
    assert_eq!(Priority::from_wire("u=99"), p(7, false));
    assert_eq!(Priority::from_wire("u=8"), p(7, false));
    assert_eq!(Priority::from_wire("u=-1"), p(7, false));
}

#[test]
fn unparsable_urgency_clamps() {
    assert_eq!(Priority::from_wire("u=abc"), p(7, false));
    assert_eq!(Priority::from_wire("u="), p(7, false));
    assert_eq!(Priority::from_wire("u=+"), p(7, false));
    assert_eq!(Priority::from_wire("u=-"), p(7, false));
    assert_eq!(Priority::from_wire("u=3.5"), p(7, false));
    assert_eq!(Priority::from_wire("u=3 3"), p(7, false));
}

#[test]
fn huge_numbers_clamp() {
    assert_eq!(Priority::from_wire("u=18446744073709551616"), p(7, false));
    assert_eq!(
        Priority::from_wire("u=999999999999999999999999999999999999"),
        p(7, false)
    );
    assert_eq!(
        Priority::from_wire("u=-999999999999999999999999999999999999"),
        p(7, false)
    );
}

#[test]
fn signed_and_padded_values() {
    assert_eq!(Priority::from_wire("u=+3"), p(3, false));
    assert_eq!(Priority::from_wire("u=-0"), p(0, false));
    assert_eq!(Priority::from_wire("u=007"), p(7, false));
    assert_eq!(Priority::from_wire("u=00"), p(0, false));
}

#[test]
fn last_urgency_wins() {
    assert_eq!(Priority::from_wire("u=1,u=5"), p(5, false));
    assert_eq!(Priority::from_wire("u=5,u=1"), p(1, false));
    assert_eq!(Priority::from_wire("u=9,u=2"), p(2, false));
}

#[test]
fn unknown_tokens_ignored_whitespace_trimmed() {
    assert_eq!(Priority::from_wire("bogus, u=2 , i "), p(2, true));
    assert_eq!(Priority::from_wire("x,i,y"), p(1, true));
    assert_eq!(Priority::from_wire("  u=4  "), p(4, false));
    assert_eq!(Priority::from_wire("\t i \t"), p(1, true));
}

#[test]
fn unicode_whitespace_is_trimmed() {
    assert_eq!(Priority::from_wire("\u{00A0}i\u{00A0}"), p(1, true));
    assert_eq!(Priority::from_wire("\u{2003}u=2\u{3000}"), p(2, false));
}

#[test]
fn non_ascii_urgency_value_clamps() {
    // A non-ASCII digit is not part of the grammar's integer form.
    assert_eq!(Priority::from_wire("u=\u{1D7DB}"), p(7, false));
}

#[test]
fn keys_are_case_sensitive() {
    assert_eq!(Priority::from_wire("U=3"), p(1, false));
    assert_eq!(Priority::from_wire("I"), p(1, false));
}

#[test]
fn incremental_is_idempotent_and_sticky() {
    assert_eq!(Priority::from_wire("i,i"), p(1, true));
    assert_eq!(Priority::from_wire("i,bogus,i"), p(1, true));
}

#[test]
fn empty_tokens_ignored() {
    assert_eq!(Priority::from_wire(","), p(1, false));
    assert_eq!(Priority::from_wire(" , ,"), p(1, false));
    assert_eq!(Priority::from_wire(",i"), p(1, true));
}

#[test]
fn value_after_last_equals_sign() {
    assert_eq!(Priority::from_wire("u=3=5"), p(5, false));
    assert_eq!(Priority::from_wire("u==4"), p(4, false));
}

#[test]
fn to_wire_not_incremental() {
    assert_eq!(p(0, false).to_wire(), "u=0");
}

#[test]
fn to_wire_incremental() {
    assert_eq!(p(4, true).to_wire(), "u=4,i");
}

#[test]
fn to_wire_multi_digit_urgency() {
    // The encoder is total over the type, even for urgencies the decoder
    // never produces.
    assert_eq!(p(42, false).to_wire(), "u=42");
    assert_eq!(p(255, true).to_wire(), "u=255,i");
}

#[test]
fn canonical_round_trip() {
    for u in 0..=7u8 {
        for inc in [false, true] {
            let v = p(u, inc);
            assert_eq!(Priority::from_wire(&v.to_wire()), v);
        }
    }
}

#[test]
fn round_trip_canonicalizes() {
    let v = Priority::from_wire("bogus, i ,u=03,x=y");
    assert_eq!(v, p(3, true));
    assert_eq!(v.to_wire(), "u=3,i");
    assert_eq!(Priority::from_wire(&v.to_wire()), v);
}
