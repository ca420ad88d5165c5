//! Codec for the Extensible Priority scheme used by HTTP priority signaling.
//!
//! The wire form is a comma-separated parameter list (`u=3,i`). This crate
//! decodes that text into a compact [`Priority`] value and encodes the value
//! back to its canonical wire text. Decoding never fails: malformed or
//! out-of-range urgency degrades to the least urgent level, and unknown
//! parameters are ignored.

use vstd::prelude::*;

pub mod wire;

verus! {

/// An Extensible Priority value.
///
/// Holds the two parameters of the scheme. It is a plain value: copied
/// freely, compared by its fields, and never mutated in place by the codec.
#[derive(Clone, Copy, Debug, PartialEq, Eq, Structural)]
pub struct Priority {
    /// Urgency level in `[0, 7]`; a lower value means more urgent.
    /// Every value produced by the codec lies in that range.
    pub urgency: u8,
    /// Whether the resource can be processed incrementally as it arrives.
    pub incremental: bool,
}

impl Default for Priority {
    /// The value in force when no recognized parameter is present:
    /// urgency 1, not incremental.
    fn default() -> (p: Self)
        ensures
            p == (Priority { urgency: 1, incremental: false }),
    {
        Priority { urgency: 1, incremental: false }
    }
}

/// Executable form of [`wire::is_wire_ws`].
fn is_ws_char(c: char) -> (b: bool)
    ensures
        b == wire::is_wire_ws(c),
{
    let u: u32 = c as u32;
    (0x09 <= u && u <= 0x0D) || u == 0x20 || u == 0x85 || u == 0xA0 || u == 0x1680 || (0x2000 <= u
        && u <= 0x200A) || u == 0x2028 || u == 0x2029 || u == 0x202F || u == 0x205F || u == 0x3000
}

/// Reads the urgency an urgency parameter's value text denotes: the
/// written integer when it is one and lies in `[0, 7]`, otherwise 7.
fn urgency_from_value_text(v: &Vec<char>) -> (u: u8)
    ensures
        u == wire::urgency_of_text(v@),
{
    let n: usize = v.len();
    let signed = n > 0 && (v[0] == '+' || v[0] == '-');
    let neg = n > 0 && v[0] == '-';
    let ds: usize = if signed {
        1
    } else {
        0
    };
    if n <= ds {
        // Empty, or a sign with no digits: not an integer.
        return 7;
    }
    let mut i: usize = ds;
    let mut acc: u32 = 0;
    // `acc` follows the value of the digits read so far, saturated at 8 so
    // that it can never overflow while still deciding membership in [0, 7].
    while i < n
        invariant
            ds <= i <= n,
            ds < n,
            n == v@.len(),
            signed ==> ds == 1 && (v@[0] == '+' || v@[0] == '-'),
            !signed ==> ds == 0 && !(v@[0] == '+' || v@[0] == '-'),
            neg ==> signed,
            wire::all_digits(v@.subrange(ds as int, i as int)),
            wire::digits_val(v@.subrange(ds as int, i as int)) <= 7 ==> acc == wire::digits_val(
                v@.subrange(ds as int, i as int),
            ),
            wire::digits_val(v@.subrange(ds as int, i as int)) > 7 ==> 8 <= acc <= 79,
        decreases n - i,
    {
        let c = v[i];
        let cu: u32 = c as u32;
        if cu < 0x30 || cu > 0x39 {
            // A non-digit among the digits: the text is not an integer.
            proof {
                assert(!wire::is_digit_char(v@[i as int]));
                if signed {
                    let s1 = v@.skip(1);
                    assert(s1 =~= v@.subrange(1, n as int));
                    assert(s1[i - 1] == v@[i as int]);
                    assert(!wire::all_digits(s1));
                } else {
                    assert(!wire::all_digits(v@));
                }
            }
            return 7;
        }
        let d: u32 = cu - 0x30;
        proof {
            assert(v@.subrange(ds as int, i + 1).drop_last() =~= v@.subrange(ds as int, i as int));
            assert(v@.subrange(ds as int, i + 1).last() == v@[i as int]);
        }
        acc = if acc > 7 {
            8
        } else {
            10 * acc + d
        };
        i += 1;
    }
    proof {
        if signed {
            assert(v@.subrange(ds as int, n as int) =~= v@.skip(1));
        } else {
            assert(v@.subrange(ds as int, n as int) =~= v@);
        }
        assert(wire::is_int_text(v@));
        wire::lemma_digits_val_nonneg(v@.subrange(ds as int, n as int));
    }
    if neg {
        // The value is `-digits`: in range exactly when the digits are 0.
        if acc == 0 {
            0
        } else {
            7
        }
    } else if acc <= 7 {
        acc as u8
    } else {
        7
    }
}

/// Applies one raw (untrimmed) parameter token to the accumulated value,
/// as [`wire::apply_param`] describes.
fn apply_one_param(p: Priority, tok: &Vec<char>) -> (q: Priority)
    ensures
        q == wire::apply_param(p, tok@),
{
    let n: usize = tok.len();
    let mut lo: usize = 0;
    while lo < n && is_ws_char(tok[lo])
        invariant
            lo <= n,
            n == tok@.len(),
            forall|i: int| 0 <= i < lo ==> wire::is_wire_ws(#[trigger] tok@[i]),
        decreases n - lo,
    {
        lo += 1;
    }
    if lo == n {
        // All whitespace: the token trims to nothing and is ignored.
        proof {
            wire::lemma_trimmed_range(tok@, n as int, n as int);
        }
        return p;
    }
    let mut hi: usize = n;
    while hi > lo && is_ws_char(tok[hi - 1])
        invariant
            lo < hi <= n,
            n == tok@.len(),
            !wire::is_wire_ws(tok@[lo as int]),
            forall|i: int| hi <= i < n ==> wire::is_wire_ws(#[trigger] tok@[i]),
        decreases hi,
    {
        hi -= 1;
    }
    proof {
        wire::lemma_trimmed_range(tok@, lo as int, hi as int);
    }
    let t_len: usize = hi - lo;
    if t_len == 1 && tok[lo] == 'i' {
        return Priority { urgency: p.urgency, incremental: true };
    }
    if t_len >= 2 && tok[lo] == 'u' && tok[lo + 1] == '=' {
        // Urgency parameter: its value is the text after the last `=`.
        let mut k: usize = hi - 1;
        while tok[k] != '='
            invariant
                lo + 1 <= k < hi,
                hi <= n == tok@.len(),
                tok@[lo + 1] == '=',
                forall|i: int| k < i < hi ==> tok@[i] != '=',
            decreases k,
        {
            k -= 1;
        }
        proof {
            wire::lemma_last_eq_at(tok@.subrange(lo as int, hi as int), k - lo);
        }
        let mut value: Vec<char> = Vec::new();
        let mut j: usize = k + 1;
        while j < hi
            invariant
                k + 1 <= j <= hi,
                hi <= n == tok@.len(),
                value@ =~= tok@.subrange(k + 1, j as int),
            decreases hi - j,
        {
            value.push(tok[j]);
            j += 1;
        }
        let u = urgency_from_value_text(&value);
        proof {
            let t = wire::trimmed(tok@);
            assert(tok@.subrange(k + 1, hi as int) =~= t.skip(wire::last_eq_pos(t) + 1));
        }
        return Priority { urgency: u, incremental: p.incremental };
    }
    // Unrecognized token: it changes nothing.
    proof {
        let t = wire::trimmed(tok@);
        assert(t[0] == tok@[lo as int]);
        assert(t.len() >= 2 ==> t[1] == tok@[lo + 1]);
        assert(!wire::is_incremental_token(t));
        assert(!wire::is_urgency_token(t));
    }
    p
}

/// The one-character string writing a decimal digit.
fn digit_str(d: u8) -> (r: &'static str)
    requires
        d <= 9,
    ensures
        r@ == seq![wire::digit_char(d as int)],
{
    if d == 0 {
        proof {
            reveal_strlit("0");
            assert("0"@ =~= seq![wire::digit_char(0)]);
        }
        "0"
    } else if d == 1 {
        proof {
            reveal_strlit("1");
            assert("1"@ =~= seq![wire::digit_char(1)]);
        }
        "1"
    } else if d == 2 {
        proof {
            reveal_strlit("2");
            assert("2"@ =~= seq![wire::digit_char(2)]);
        }
        "2"
    } else if d == 3 {
        proof {
            reveal_strlit("3");
            assert("3"@ =~= seq![wire::digit_char(3)]);
        }
        "3"
    } else if d == 4 {
        proof {
            reveal_strlit("4");
            assert("4"@ =~= seq![wire::digit_char(4)]);
        }
        "4"
    } else if d == 5 {
        proof {
            reveal_strlit("5");
            assert("5"@ =~= seq![wire::digit_char(5)]);
        }
        "5"
    } else if d == 6 {
        proof {
            reveal_strlit("6");
            assert("6"@ =~= seq![wire::digit_char(6)]);
        }
        "6"
    } else if d == 7 {
        proof {
            reveal_strlit("7");
            assert("7"@ =~= seq![wire::digit_char(7)]);
        }
        "7"
    } else if d == 8 {
        proof {
            reveal_strlit("8");
            assert("8"@ =~= seq![wire::digit_char(8)]);
        }
        "8"
    } else {
        proof {
            reveal_strlit("9");
            assert("9"@ =~= seq![wire::digit_char(9)]);
        }
        "9"
    }
}

impl Priority {
    /// Converts from the priority wire format.
    ///
    /// Total: any input yields a valid value. Unknown parameters are
    /// ignored, whitespace around parameters is trimmed, a later `u=`
    /// overrides an earlier one, and an unparsable or out-of-range urgency
    /// becomes 7, the least urgent level.
    pub fn from_wire(priority_field: &str) -> (p: Self)
        ensures
            p == wire::wire_priority(priority_field@),
            p.urgency <= 7,
    {
        let n: usize = priority_field.unicode_len();
        let mut tok: Vec<char> = Vec::new();
        let mut p = Priority { urgency: 1, incremental: false };
        let mut i: usize = 0;
        proof {
            assert(priority_field@.skip(0) =~= priority_field@);
        }
        while i < n
            invariant
                i <= n,
                n == priority_field@.len(),
                wire::wire_priority(priority_field@) == wire::wire_fold(
                    priority_field@.skip(i as int),
                    tok@,
                    p,
                ),
            decreases n - i,
        {
            let c = priority_field.get_char(i);
            proof {
                assert(priority_field@.skip(i as int)[0] == priority_field@[i as int]);
                assert(priority_field@.skip(i as int).drop_first() =~= priority_field@.skip(
                    i + 1,
                ));
            }
            if c == ',' {
                p = apply_one_param(p, &tok);
                tok = Vec::new();
            } else {
                tok.push(c);
            }
            i += 1;
        }
        proof {
            assert(priority_field@.skip(n as int) =~= Seq::<char>::empty());
            wire::lemma_wire_fold_urgency(
                priority_field@,
                Seq::empty(),
                Priority { urgency: 1, incremental: false },
            );
        }
        apply_one_param(p, &tok)
    }

    /// Converts to the priority wire format.
    ///
    /// Emits `u=<urgency>` in decimal, then `,i` exactly when the
    /// incremental flag is set. The output is canonical: fixed field
    /// order, no whitespace, no unknown parameters.
    pub fn to_wire(self) -> (s: String)
        ensures
            s@ == wire::wire_text(self),
    {
        let mut s = String::from_str("u=");
        proof {
            reveal_strlit("u=");
            assert("u="@ =~= seq!['u', '=']);
        }
        let u: u8 = self.urgency;
        if u >= 100 {
            s.append(digit_str(u / 100));
        }
        if u >= 10 {
            s.append(digit_str((u / 10) % 10));
        }
        s.append(digit_str(u % 10));
        proof {
            if u < 10 {
                wire::lemma_dec_rep_one(u as int);
            } else if u < 100 {
                wire::lemma_dec_rep_two(u as int);
            } else {
                wire::lemma_dec_rep_three(u as int);
            }
            assert(s@ =~= seq!['u', '='] + wire::dec_rep(u as int));
        }
        if self.incremental {
            s.append(",i");
            proof {
                reveal_strlit(",i");
                assert(",i"@ =~= seq![',', 'i']);
            }
        }
        s
    }
}

} // verus!
