//! Mathematical model of the wire grammar.
//!
//! The wire form is a list of parameters separated by `,`. Each parameter is
//! trimmed of surrounding whitespace and then dispatched: the literal `i`
//! sets the incremental flag, a token starting with `u=` sets the urgency
//! from the text after its last `=` (clamped to `[0, 7]`, with anything
//! unparsable mapped to 7), and any other token is ignored. The functions
//! here define that reading over `Seq<char>`; the executable codec in the
//! crate root is proved against them.

use vstd::prelude::*;

use crate::Priority;

verus! {

/// Whether `c` is trimmed away at the edges of a parameter token.
/// This is the Unicode `White_Space` set.
pub open spec fn is_wire_ws(c: char) -> bool {
    let u = c as u32;
    ||| (0x09 <= u && u <= 0x0D)
    ||| u == 0x20
    ||| u == 0x85
    ||| u == 0xA0
    ||| u == 0x1680
    ||| (0x2000 <= u && u <= 0x200A)
    ||| u == 0x2028
    ||| u == 0x2029
    ||| u == 0x202F
    ||| u == 0x205F
    ||| u == 0x3000
}

/// Whether `c` is an ASCII decimal digit.
pub open spec fn is_digit_char(c: char) -> bool {
    0x30 <= c as u32 && c as u32 <= 0x39
}

/// The numeric value of an ASCII decimal digit.
pub open spec fn digit_val(c: char) -> int {
    c as u32 - 0x30
}

/// `s` with its leading whitespace removed.
pub open spec fn trim_start(s: Seq<char>) -> Seq<char>
    decreases s.len(),
{
    if s.len() > 0 && is_wire_ws(s[0]) {
        trim_start(s.drop_first())
    } else {
        s
    }
}

/// `s` with its trailing whitespace removed.
pub open spec fn trim_end(s: Seq<char>) -> Seq<char>
    decreases s.len(),
{
    if s.len() > 0 && is_wire_ws(s.last()) {
        trim_end(s.drop_last())
    } else {
        s
    }
}

/// `s` with whitespace removed from both ends.
pub open spec fn trimmed(s: Seq<char>) -> Seq<char> {
    trim_end(trim_start(s))
}

/// Whether every character of `s` is an ASCII decimal digit.
pub open spec fn all_digits(s: Seq<char>) -> bool {
    forall|i: int| 0 <= i < s.len() ==> is_digit_char(#[trigger] s[i])
}

/// The number written by a string of decimal digits (0 when empty).
pub open spec fn digits_val(s: Seq<char>) -> int
    decreases s.len(),
{
    if s.len() == 0 {
        0
    } else {
        10 * digits_val(s.drop_last()) + digit_val(s.last())
    }
}

/// Whether `s` is a decimal integer: an optional sign followed by at
/// least one digit, nothing else.
pub open spec fn is_int_text(s: Seq<char>) -> bool {
    if s.len() >= 1 && (s[0] == '+' || s[0] == '-') {
        s.len() >= 2 && all_digits(s.skip(1))
    } else {
        s.len() >= 1 && all_digits(s)
    }
}

/// The value of a decimal integer string (meaningful when `is_int_text`).
pub open spec fn int_text_val(s: Seq<char>) -> int
    recommends
        is_int_text(s),
{
    if s[0] == '-' {
        -digits_val(s.skip(1))
    } else if s[0] == '+' {
        digits_val(s.skip(1))
    } else {
        digits_val(s)
    }
}

/// The urgency an urgency parameter's value text denotes: the written
/// integer when it lies in `[0, 7]`, and 7 (least urgent) when it is out
/// of range or not an integer at all.
pub open spec fn urgency_of_text(s: Seq<char>) -> u8 {
    if is_int_text(s) && 0 <= int_text_val(s) <= 7 {
        int_text_val(s) as u8
    } else {
        7
    }
}

/// The index of the last `=` in `s`, or -1 when there is none.
pub open spec fn last_eq_pos(s: Seq<char>) -> int
    decreases s.len(),
{
    if s.len() == 0 {
        -1
    } else if s.last() == '=' {
        s.len() - 1
    } else {
        last_eq_pos(s.drop_last())
    }
}

/// Whether a trimmed token is the incremental parameter: the literal `i`.
pub open spec fn is_incremental_token(t: Seq<char>) -> bool {
    t.len() == 1 && t[0] == 'i'
}

/// Whether a trimmed token is an urgency parameter: it starts with `u=`.
pub open spec fn is_urgency_token(t: Seq<char>) -> bool {
    t.len() >= 2 && t[0] == 'u' && t[1] == '='
}

/// The effect of one raw (untrimmed) parameter token on the value
/// accumulated so far. Unrecognized tokens change nothing.
pub open spec fn apply_param(p: Priority, raw: Seq<char>) -> Priority {
    let t = trimmed(raw);
    if is_incremental_token(t) {
        Priority { urgency: p.urgency, incremental: true }
    } else if is_urgency_token(t) {
        Priority { urgency: urgency_of_text(t.skip(last_eq_pos(t) + 1)), incremental: p.incremental }
    } else {
        p
    }
}

/// A left-to-right scan of the remaining input `s`: `tok` holds the
/// characters of the parameter read so far, `p` the value accumulated
/// from the parameters already finished. A `,` closes the current
/// parameter; the end of the input closes the last one.
pub open spec fn wire_fold(s: Seq<char>, tok: Seq<char>, p: Priority) -> Priority
    decreases s.len(),
{
    if s.len() == 0 {
        apply_param(p, tok)
    } else if s[0] == ',' {
        wire_fold(s.drop_first(), Seq::empty(), apply_param(p, tok))
    } else {
        wire_fold(s.drop_first(), tok.push(s[0]), p)
    }
}

/// The `Priority` a whole wire string denotes: fold every parameter,
/// starting from the default value.
pub open spec fn wire_priority(s: Seq<char>) -> Priority {
    wire_fold(s, Seq::empty(), Priority { urgency: 1, incremental: false })
}

/// The digit character writing `d` (meaningful for `0 <= d <= 9`).
pub open spec fn digit_char(d: int) -> char {
    if d == 0 {
        '0'
    } else if d == 1 {
        '1'
    } else if d == 2 {
        '2'
    } else if d == 3 {
        '3'
    } else if d == 4 {
        '4'
    } else if d == 5 {
        '5'
    } else if d == 6 {
        '6'
    } else if d == 7 {
        '7'
    } else if d == 8 {
        '8'
    } else {
        '9'
    }
}

/// The decimal text of a non-negative integer, without leading zeros
/// (except for 0 itself).
pub open spec fn dec_rep(n: int) -> Seq<char>
    recommends
        n >= 0,
    decreases n,
{
    if n < 10 {
        seq![digit_char(n)]
    } else {
        dec_rep(n / 10).push(digit_char(n % 10))
    }
}

/// The canonical wire text of a `Priority`: `u=<urgency>`, then `,i`
/// exactly when the incremental flag is set.
pub open spec fn wire_text(p: Priority) -> Seq<char> {
    let base = seq!['u', '='] + dec_rep(p.urgency as int);
    if p.incremental {
        base + seq![',', 'i']
    } else {
        base
    }
}

/// Every parameter leaves an in-range urgency in place: `apply_param`
/// either keeps the accumulated urgency or installs `urgency_of_text`,
/// which is clamped to `[0, 7]` by construction.
pub proof fn lemma_apply_param_urgency(p: Priority, raw: Seq<char>)
    requires
        p.urgency <= 7,
    ensures
        apply_param(p, raw).urgency <= 7,
{
}

/// The whole fold keeps the urgency in `[0, 7]`.
pub proof fn lemma_wire_fold_urgency(s: Seq<char>, tok: Seq<char>, p: Priority)
    requires
        p.urgency <= 7,
    ensures
        wire_fold(s, tok, p).urgency <= 7,
    decreases s.len(),
{
    if s.len() == 0 {
        lemma_apply_param_urgency(p, tok);
    } else if s[0] == ',' {
        lemma_apply_param_urgency(p, tok);
        lemma_wire_fold_urgency(s.drop_first(), Seq::empty(), apply_param(p, tok));
    } else {
        lemma_wire_fold_urgency(s.drop_first(), tok.push(s[0]), p);
    }
}

/// `trim_start` removes exactly the leading run of whitespace: when the
/// first `lo` characters are whitespace and the one after them (if any)
/// is not, the rest of the sequence is what remains.
pub proof fn lemma_trim_start_at(s: Seq<char>, lo: int)
    requires
        0 <= lo <= s.len(),
        forall|i: int| 0 <= i < lo ==> is_wire_ws(#[trigger] s[i]),
        lo < s.len() ==> !is_wire_ws(s[lo]),
    ensures
        trim_start(s) == s.skip(lo),
    decreases lo,
{
    if lo == 0 {
        assert(s.skip(0) =~= s);
    } else {
        let s1 = s.drop_first();
        assert(forall|i: int| 0 <= i < lo - 1 ==> is_wire_ws(#[trigger] s1[i]));
        lemma_trim_start_at(s1, lo - 1);
        assert(s1.skip(lo - 1) =~= s.skip(lo));
    }
}

/// `trim_end` removes exactly the trailing run of whitespace.
pub proof fn lemma_trim_end_at(s: Seq<char>, hi: int)
    requires
        0 <= hi <= s.len(),
        forall|i: int| hi <= i < s.len() ==> is_wire_ws(#[trigger] s[i]),
        hi > 0 ==> !is_wire_ws(s[hi - 1]),
    ensures
        trim_end(s) == s.take(hi),
    decreases s.len(),
{
    if hi == s.len() {
        assert(s.take(hi) =~= s);
    } else {
        let s1 = s.drop_last();
        assert(is_wire_ws(s.last()));
        lemma_trim_end_at(s1, hi);
        assert(s1.take(hi) =~= s.take(hi));
    }
}

/// `trimmed(s)` is the subrange `[lo, hi)` when the characters outside it
/// are whitespace and the ones at its edges are not. The degenerate case
/// `lo == hi` stands for an all-whitespace token, normalized to
/// `lo == hi == s.len()`.
pub proof fn lemma_trimmed_range(s: Seq<char>, lo: int, hi: int)
    requires
        0 <= lo <= hi <= s.len(),
        forall|i: int| 0 <= i < lo ==> is_wire_ws(#[trigger] s[i]),
        forall|i: int| hi <= i < s.len() ==> is_wire_ws(#[trigger] s[i]),
        lo < hi ==> !is_wire_ws(s[lo]) && !is_wire_ws(s[hi - 1]),
        lo == hi ==> lo == s.len(),
    ensures
        trimmed(s) == s.subrange(lo, hi),
{
    lemma_trim_start_at(s, lo);
    let t = s.skip(lo);
    assert(forall|i: int| hi - lo <= i < t.len() ==> is_wire_ws(#[trigger] t[i]));
    lemma_trim_end_at(t, hi - lo);
    assert(t.take(hi - lo) =~= s.subrange(lo, hi));
}

/// `last_eq_pos` is the largest index holding `=`.
pub proof fn lemma_last_eq_at(s: Seq<char>, k: int)
    requires
        0 <= k < s.len(),
        s[k] == '=',
        forall|i: int| k < i < s.len() ==> s[i] != '=',
    ensures
        last_eq_pos(s) == k,
    decreases s.len(),
{
    if k < s.len() - 1 {
        lemma_last_eq_at(s.drop_last(), k);
    }
}

/// The decimal text of a one-digit number.
pub proof fn lemma_dec_rep_one(n: int)
    requires
        0 <= n < 10,
    ensures
        dec_rep(n) == seq![digit_char(n)],
{
}

/// The decimal text of a two-digit number.
pub proof fn lemma_dec_rep_two(n: int)
    requires
        10 <= n < 100,
    ensures
        dec_rep(n) == seq![digit_char(n / 10), digit_char(n % 10)],
{
    lemma_dec_rep_one(n / 10);
    assert(seq![digit_char(n / 10)].push(digit_char(n % 10)) =~= seq![
        digit_char(n / 10),
        digit_char(n % 10),
    ]);
}

/// The decimal text of a three-digit number.
pub proof fn lemma_dec_rep_three(n: int)
    requires
        100 <= n < 1000,
    ensures
        dec_rep(n) == seq![digit_char(n / 100), digit_char((n / 10) % 10), digit_char(n % 10)],
{
    assert((n / 10) / 10 == n / 100) by (nonlinear_arith)
        requires
            100 <= n < 1000,
    ;
    lemma_dec_rep_two(n / 10);
    assert(seq![digit_char(n / 100), digit_char((n / 10) % 10)].push(digit_char(n % 10)) =~= seq![
        digit_char(n / 100),
        digit_char((n / 10) % 10),
        digit_char(n % 10),
    ]);
}

/// A digit string's value is never negative.
pub proof fn lemma_digits_val_nonneg(s: Seq<char>)
    requires
        all_digits(s),
    ensures
        digits_val(s) >= 0,
    decreases s.len(),
{
    if s.len() > 0 {
        assert(all_digits(s.drop_last()));
        lemma_digits_val_nonneg(s.drop_last());
        assert(is_digit_char(s.last()));
    }
}

/// The characters that write the digits 0-9 are digits writing back
/// their value, and are none of the characters the grammar treats
/// specially.
pub proof fn lemma_digit_char_facts(n: int)
    requires
        0 <= n <= 9,
    ensures
        is_digit_char(digit_char(n)),
        digit_val(digit_char(n)) == n,
        !is_wire_ws(digit_char(n)),
        digit_char(n) != ',',
        digit_char(n) != '=',
        digit_char(n) != '+',
        digit_char(n) != '-',
        digit_char(n) != 'i',
{
}

/// The canonical urgency parameter `u=<d>`, for a single digit `d` in
/// range, installs exactly that urgency.
proof fn lemma_apply_canonical_urgency(p: Priority, u: int)
    requires
        0 <= u <= 7,
    ensures
        apply_param(p, seq!['u', '=', digit_char(u)]) == (Priority {
            urgency: u as u8,
            incremental: p.incremental,
        }),
{
    let d = digit_char(u);
    lemma_digit_char_facts(u);
    let t = seq!['u', '=', d];
    assert(!is_wire_ws('u'));
    assert(trim_start(t) == t);
    assert(t.last() == d);
    assert(trim_end(t) == t);
    assert(trimmed(t) == t);
    assert(!is_incremental_token(t));
    assert(is_urgency_token(t));
    assert(t.drop_last() =~= seq!['u', '=']);
    assert(seq!['u', '='].last() == '=');
    assert(last_eq_pos(seq!['u', '=']) == 1);
    assert(last_eq_pos(t) == 1);
    let v = t.skip(2);
    assert(v =~= seq![d]);
    assert(all_digits(seq![d]));
    assert(is_int_text(seq![d]));
    assert(seq![d].drop_last() =~= Seq::<char>::empty());
    assert(digits_val(Seq::<char>::empty()) == 0);
    assert(seq![d].last() == d);
    assert(digits_val(seq![d]) == u);
    assert(int_text_val(seq![d]) == u);
    assert(urgency_of_text(seq![d]) == u as u8);
}

/// The canonical incremental parameter `i` sets exactly the flag.
proof fn lemma_apply_canonical_incremental(p: Priority)
    ensures
        apply_param(p, seq!['i']) == (Priority { urgency: p.urgency, incremental: true }),
{
    let t = seq!['i'];
    assert(!is_wire_ws('i'));
    assert(trim_start(t) == t);
    assert(trim_end(t) == t);
    assert(trimmed(t) == t);
    assert(is_incremental_token(t));
}

/// Recognized parameters are order-independent, except that of two
/// urgency parameters the later one wins: applying two raw tokens in
/// either order gives the same value whenever they are not both urgency
/// parameters.
pub proof fn lemma_param_order(p: Priority, a: Seq<char>, b: Seq<char>)
    requires
        !(is_urgency_token(trimmed(a)) && is_urgency_token(trimmed(b))),
    ensures
        apply_param(apply_param(p, a), b) == apply_param(apply_param(p, b), a),
{
}

/// Repeating a parameter changes nothing further: `i` only sets a flag,
/// an urgency token installs the same urgency again, and an unrecognized
/// token never did anything.
pub proof fn lemma_param_idempotent(p: Priority, a: Seq<char>)
    ensures
        apply_param(apply_param(p, a), a) == apply_param(p, a),
{
}

/// Canonical round trip: decoding the canonical wire text of any
/// reachable `Priority` (urgency in `[0, 7]`) gives that value back.
pub proof fn lemma_round_trip(p: Priority)
    requires
        p.urgency <= 7,
    ensures
        wire_priority(wire_text(p)) == p,
{
    let u = p.urgency as int;
    lemma_dec_rep_one(u);
    let d = digit_char(u);
    lemma_digit_char_facts(u);
    let p0 = Priority { urgency: 1, incremental: false };
    let e = Seq::<char>::empty();
    let s0 = seq!['u', '=', d];
    let s1 = seq!['=', d];
    let s2 = seq![d];
    assert(s0.drop_first() =~= s1);
    assert(s1.drop_first() =~= s2);
    assert(s2.drop_first() =~= e);
    assert(e.push('u') =~= seq!['u']);
    assert(seq!['u'].push('=') =~= seq!['u', '=']);
    assert(seq!['u', '='].push(d) =~= s0);
    lemma_apply_canonical_urgency(p0, u);
    if !p.incremental {
        assert(wire_text(p) =~= s0);
        assert(wire_fold(s0, e, p0) == wire_fold(s1, seq!['u'], p0));
        assert(wire_fold(s1, seq!['u'], p0) == wire_fold(s2, seq!['u', '='], p0));
        assert(wire_fold(s2, seq!['u', '='], p0) == wire_fold(e, s0, p0));
        assert(wire_fold(e, s0, p0) == apply_param(p0, s0));
    } else {
        let r0 = seq!['u', '=', d, ',', 'i'];
        let r1 = seq!['=', d, ',', 'i'];
        let r2 = seq![d, ',', 'i'];
        let r3 = seq![',', 'i'];
        let r4 = seq!['i'];
        assert(wire_text(p) =~= r0);
        assert(r0.drop_first() =~= r1);
        assert(r1.drop_first() =~= r2);
        assert(r2.drop_first() =~= r3);
        assert(r3.drop_first() =~= r4);
        assert(r4.drop_first() =~= e);
        let q = apply_param(p0, s0);
        assert(q == (Priority { urgency: u as u8, incremental: false }));
        assert(wire_fold(r0, e, p0) == wire_fold(r1, seq!['u'], p0));
        assert(wire_fold(r1, seq!['u'], p0) == wire_fold(r2, seq!['u', '='], p0));
        assert(wire_fold(r2, seq!['u', '='], p0) == wire_fold(r3, s0, p0));
        assert(wire_fold(r3, s0, p0) == wire_fold(r4, e, q));
        assert(r4[0] == 'i');
        assert(wire_fold(r4, e, q) == wire_fold(e, e.push('i'), q));
        assert(e.push('i') =~= seq!['i']);
        lemma_apply_canonical_incremental(q);
        assert(wire_fold(e, seq!['i'], q) == apply_param(q, seq!['i']));
    }
}

} // verus!
