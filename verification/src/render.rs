//! Rendering of entry fields as text: decimal numbers, joined value lists,
//! track pairs and human-readable sizes.

use vstd::prelude::*;

use crate::info::Track;
use crate::text::push_char;

verus! {

/// The decimal digit character for a value below ten.
pub open spec fn digit_char(d: int) -> char {
    (48 + d) as char
}

/// The decimal digits of a non-negative number, most significant first.
pub open spec fn dec_digits(n: nat) -> Seq<char>
    decreases n,
{
    if n < 10 {
        seq![digit_char(n as int)]
    } else {
        dec_digits(n / 10).push(digit_char((n % 10) as int))
    }
}

/// The decimal rendering of an integer: a minus sign and the digits of its
/// magnitude when negative, its digits alone otherwise.
pub open spec fn dec_int(i: int) -> Seq<char> {
    if i < 0 {
        seq!['-'] + dec_digits((-i) as nat)
    } else {
        dec_digits(i as nat)
    }
}

/// Appends the decimal digits of `n`.
fn push_digits(s: &mut String, n: u128)
    ensures
        final(s)@ == old(s)@ + dec_digits(n as nat),
    decreases n,
{
    if n >= 10 {
        push_digits(s, n / 10);
    }
    let d = (n % 10) as u8;
    push_char(s, (48 + d) as char);
    proof {
        if n < 10 {
            assert(old(s)@ + dec_digits(n as nat) =~= s@);
        } else {
            assert(old(s)@ + dec_digits(n as nat) =~= s@);
        }
    }
}

/// Renders a size as decimal text.
pub(crate) fn u64_to_string(n: u64) -> (r: String)
    ensures
        r@ == dec_digits(n as nat),
{
    let mut s = String::new();
    push_digits(&mut s, n as u128);
    proof {
        assert(Seq::<char>::empty() + dec_digits(n as nat) =~= dec_digits(n as nat));
    }
    s
}

/// Appends a year or another signed number as decimal text.
fn push_i32(s: &mut String, n: i32)
    ensures
        final(s)@ == old(s)@ + dec_int(n as int),
{
    if n < 0 {
        let magnitude = -(n as i64);
        push_char(s, '-');
        let ghost mid = s@;
        push_digits(s, magnitude as u128);
        proof {
            assert(old(s)@ + dec_int(n as int) =~= mid + dec_digits((-(n as int)) as nat));
        }
    } else {
        push_digits(s, n as u128);
    }
}

/// The text an optional year renders as: its decimal form, or nothing.
pub open spec fn opt_i32_text(v: Option<i32>) -> Seq<char> {
    match v {
        Some(i) => dec_int(i as int),
        None => Seq::empty(),
    }
}

/// Renders an optional year: its decimal form when present, empty text
/// otherwise.
pub fn display_option_i32(op_i32: &Option<i32>) -> (r: String)
    ensures
        r@ == opt_i32_text(*op_i32),
{
    match op_i32 {
        Some(i) => {
            let mut s = String::new();
            push_i32(&mut s, *i);
            proof {
                assert(Seq::<char>::empty() + dec_int(*i as int) =~= dec_int(*i as int));
            }
            s
        },
        None => String::new(),
    }
}

/// The value list joined with slashes.
pub open spec fn joined(v: Seq<Seq<char>>) -> Seq<char>
    decreases v.len(),
{
    if v.len() == 0 {
        Seq::empty()
    } else if v.len() == 1 {
        v[0]
    } else {
        joined(v.drop_last()) + seq!['/'] + v.last()
    }
}

/// Renders a value list joined with slashes.
pub fn display_vec_string(v: &[String]) -> (r: String)
    ensures
        r@ == joined(v.deep_view()),
{
    let ghost whole = v.deep_view();
    let mut s = String::new();
    let mut i: usize = 0;
    proof {
        assert(s@ =~= joined(whole.take(0)));
    }
    while i < v.len()
        invariant
            i <= v.len(),
            whole == v.deep_view(),
            whole.len() == v@.len(),
            s@ == joined(whole.take(i as int)),
        decreases v.len() - i,
    {
        if i > 0 {
            push_char(&mut s, '/');
        }
        s.append(v[i].as_str());
        proof {
            let upto = whole.take(i + 1);
            assert(upto.drop_last() =~= whole.take(i as int));
            assert(upto.last() == whole[i as int]);
            if i == 0 {
                assert(s@ =~= joined(upto));
            } else {
                assert(s@ =~= joined(upto));
            }
        }
        i = i + 1;
    }
    proof {
        assert(whole.take(v@.len() as int) =~= whole);
    }
    s
}

/// The text an optional value list renders as: its values joined with
/// slashes, or nothing.
pub open spec fn opt_strings_text(v: Option<Seq<Seq<char>>>) -> Seq<char> {
    match v {
        Some(vals) => joined(vals),
        None => Seq::empty(),
    }
}

/// Renders an optional value list: its values joined with slashes when
/// present, empty text otherwise.
pub fn display_option_vec_string(op_vec_str: &Option<Vec<String>>) -> (r: String)
    ensures
        r@ == opt_strings_text(op_vec_str.deep_view()),
{
    match op_vec_str {
        Some(v) => display_vec_string(v.as_slice()),
        None => String::new(),
    }
}

/// The text a track renders as: nothing without a number, the number alone
/// without a total, and number slash total with both.
pub open spec fn track_text(t: Track) -> Seq<char> {
    match t.number {
        Some(n) => match t.total {
            Some(total) => dec_digits(n as nat) + seq!['/'] + dec_digits(total as nat),
            None => dec_digits(n as nat),
        },
        None => Seq::empty(),
    }
}

/// The e-th power of 1024, the base of the size units.
pub open spec fn pow1024(e: nat) -> nat
    decreases e,
{
    if e == 0 {
        1
    } else {
        1024 * pow1024((e - 1) as nat)
    }
}

/// The unit a size is rendered in: the largest power of 1024 that does not
/// exceed it, capped at the largest named unit.
pub open spec fn size_exponent(s: u64) -> nat {
    if (s as nat) < pow1024(1) {
        0
    } else if (s as nat) < pow1024(2) {
        1
    } else if (s as nat) < pow1024(3) {
        2
    } else if (s as nat) < pow1024(4) {
        3
    } else if (s as nat) < pow1024(5) {
        4
    } else if (s as nat) < pow1024(6) {
        5
    } else {
        6
    }
}

/// The suffix of each size unit.
pub open spec fn size_suffix(e: nat) -> Seq<char> {
    if e == 0 {
        seq!['B']
    } else if e == 1 {
        seq!['k', 'i', 'B']
    } else if e == 2 {
        seq!['M', 'i', 'B']
    } else if e == 3 {
        seq!['G', 'i', 'B']
    } else if e == 4 {
        seq!['T', 'i', 'B']
    } else if e == 5 {
        seq!['P', 'i', 'B']
    } else {
        seq!['E', 'i', 'B']
    }
}

/// The human-readable, base-1024 rendering of a size: below ten bytes the
/// exact count, below ten units one decimal place, above that a whole
/// number of units, rounding to nearest in either case.
pub open spec fn human_size_text(s: u64) -> Seq<char> {
    if s < 10 {
        dec_digits(s as nat) + seq![' ', 'B']
    } else {
        let e = size_exponent(s);
        let divisor = pow1024(e) as int;
        let tenths = (10 * (s as int) + divisor / 2) / divisor;
        if tenths < 100 {
            dec_digits((tenths / 10) as nat) + seq!['.'] + dec_digits((tenths % 10) as nat)
                + seq![' '] + size_suffix(e)
        } else {
            dec_digits(((tenths + 5) / 10) as nat) + seq![' '] + size_suffix(e)
        }
    }
}

/// The values of the powers of 1024 a size can reach.
proof fn lemma_pow1024_values()
    ensures
        pow1024(0) == 1,
        pow1024(1) == 1024,
        pow1024(2) == 0x100000,
        pow1024(3) == 0x40000000,
        pow1024(4) == 0x10000000000,
        pow1024(5) == 0x4000000000000,
        pow1024(6) == 0x1000000000000000,
{
    assert(pow1024(0) == 1);
    assert(pow1024(1) == 1024);
    assert(pow1024(2) == 0x100000);
    assert(pow1024(3) == 0x40000000);
    assert(pow1024(4) == 0x10000000000);
    assert(pow1024(5) == 0x4000000000000);
    assert(pow1024(6) == 0x1000000000000000);
}

/// The unit suffix, rendered.
fn suffix_str(e: u32) -> (r: &'static str)
    requires
        e <= 6,
    ensures
        r@ == size_suffix(e as nat),
{
    proof {
        reveal_strlit("B");
        reveal_strlit("kiB");
        reveal_strlit("MiB");
        reveal_strlit("GiB");
        reveal_strlit("TiB");
        reveal_strlit("PiB");
        reveal_strlit("EiB");
    }
    let r = if e == 0 {
        "B"
    } else if e == 1 {
        "kiB"
    } else if e == 2 {
        "MiB"
    } else if e == 3 {
        "GiB"
    } else if e == 4 {
        "TiB"
    } else if e == 5 {
        "PiB"
    } else {
        "EiB"
    };
    proof {
        assert(r@ =~= size_suffix(e as nat));
    }
    r
}

/// Renders a size as human readable text in base-1024 units.
pub fn human_readable_size(s: &u64) -> (r: String)
    ensures
        r@ == human_size_text(*s),
{
    let v = *s;
    proof {
        lemma_pow1024_values();
    }
    if v < 10 {
        let mut out = u64_to_string(v);
        out.append(" B");
        proof {
            reveal_strlit(" B");
            assert(out@ =~= human_size_text(v));
        }
        return out;
    }
    let (e, divisor): (u32, u64) = if v < 1024 {
        (0, 1)
    } else if v < 0x100000 {
        (1, 1024)
    } else if v < 0x40000000 {
        (2, 0x100000)
    } else if v < 0x10000000000 {
        (3, 0x40000000)
    } else if v < 0x4000000000000 {
        (4, 0x10000000000)
    } else if v < 0x1000000000000000 {
        (5, 0x4000000000000)
    } else {
        (6, 0x1000000000000000)
    };
    proof {
        assert(e as nat == size_exponent(v));
        assert(divisor as nat == pow1024(e as nat));
    }
    let wide = divisor as u128;
    let tenths = (10 * (v as u128) + wide / 2) / wide;
    let mut out = String::new();
    if tenths < 100 {
        push_digits(&mut out, tenths / 10);
        push_char(&mut out, '.');
        let ghost mid = out@;
        push_digits(&mut out, tenths % 10);
        push_char(&mut out, ' ');
        out.append(suffix_str(e));
        proof {
            assert(out@ =~= human_size_text(v));
        }
    } else {
        push_digits(&mut out, (tenths + 5) / 10);
        push_char(&mut out, ' ');
        out.append(suffix_str(e));
        proof {
            assert(out@ =~= human_size_text(v));
        }
    }
    out
}

/// The first character replaced by its ASCII uppercase form.
pub open spec fn ascii_upper_char(c: char) -> char {
    if 97 <= c as u32 <= 122 {
        ((c as u32) - 32) as char
    } else {
        c
    }
}

/// The text with its first character capitalized.
pub open spec fn capitalized(s: Seq<char>) -> Seq<char> {
    seq![ascii_upper_char(s[0])] + s.drop_first()
}

/// Capitalizes the first letter of a message. The first character must be a
/// narrow one: a wider character does not capitalize and cannot be split
/// off the front as a one-byte prefix.
pub fn capitalize_first_letter(s: &str) -> (r: String)
    requires
        s@.len() > 0,
        (s@[0] as u32) < 128,
    ensures
        r@ == capitalized(s@),
{
    let c = s.get_char(0);
    let cu = c as u32;
    let up: char = if 97 <= cu && cu <= 122 {
        ((cu - 32) as u8) as char
    } else {
        c
    };
    let mut r = String::new();
    push_char(&mut r, up);
    let len = s.unicode_len();
    let rest = s.substring_char(1, len);
    r.append(rest);
    proof {
        assert(r@ =~= capitalized(s@));
    }
    r
}

/// Renders a track.
pub fn display_track(track: &Track) -> (r: String)
    ensures
        r@ == track_text(*track),
{
    match track.number {
        Some(n) => {
            let mut s = String::new();
            push_digits(&mut s, n as u128);
            proof {
                assert(Seq::<char>::empty() + dec_digits(n as nat) =~= dec_digits(n as nat));
            }
            match track.total {
                Some(total) => {
                    push_char(&mut s, '/');
                    let ghost mid = s@;
                    push_digits(&mut s, total as u128);
                    proof {
                        assert(s@ =~= track_text(*track));
                    }
                    s
                },
                None => s,
            }
        },
        None => String::new(),
    }
}

} // verus!
