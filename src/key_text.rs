//! The text form of the server's 32-byte private token key, as the build
//! environment supplies it: `[b0, b1, ..., b31]`, each byte in decimal.

use vstd::prelude::*;
use vstd::string::StringSliceAdditionalSpecFns;

verus! {

/// Bytes of the private token key.
pub const PRIVATE_KEY_LEN: usize = 32;

/// `[` or `]`.
pub open spec fn is_bracket(c: u8) -> bool {
    c == 91u8 || c == 93u8
}

/// An ASCII whitespace byte: space, tab, line feed, vertical tab, form feed,
/// carriage return.
pub open spec fn is_space(c: u8) -> bool {
    c == 32u8 || (9u8 <= c && c <= 13u8)
}

/// The predicate `is_space`, as a value.
pub open spec fn space_class() -> spec_fn(u8) -> bool {
    |c: u8| is_space(c)
}

/// The predicate `is_bracket`, as a value.
pub open spec fn bracket_class() -> spec_fn(u8) -> bool {
    |c: u8| is_bracket(c)
}

/// An ASCII decimal digit.
pub open spec fn is_digit(c: u8) -> bool {
    48u8 <= c && c <= 57u8
}

/// How many bytes at the start of `b` satisfy `p`.
pub open spec fn lead_count(b: Seq<u8>, p: spec_fn(u8) -> bool) -> nat
    decreases b.len(),
{
    if b.len() > 0 && p(b[0]) {
        1 + lead_count(b.drop_first(), p)
    } else {
        0
    }
}

/// How many bytes at the end of `b` satisfy `p`.
pub open spec fn trail_count(b: Seq<u8>, p: spec_fn(u8) -> bool) -> nat
    decreases b.len(),
{
    if b.len() > 0 && p(b.last()) {
        1 + trail_count(b.drop_last(), p)
    } else {
        0
    }
}

/// `b` without the bytes satisfying `p` at its start, then at its end.
pub open spec fn trim_by(b: Seq<u8>, p: spec_fn(u8) -> bool) -> Seq<u8> {
    let s = b.subrange(lead_count(b, p) as int, b.len() as int);
    s.subrange(0, s.len() - trail_count(s, p))
}

/// The index of the first comma of `b`, or its length when it has none.
pub open spec fn comma_index(b: Seq<u8>) -> nat
    decreases b.len(),
{
    if b.len() == 0 {
        0
    } else if b[0] == 44u8 {
        0
    } else {
        1 + comma_index(b.drop_first())
    }
}

/// The pieces of `b` between its commas (one piece when it has none).
pub open spec fn split_fields(b: Seq<u8>) -> Seq<Seq<u8>>
    decreases b.len(),
{
    let c = comma_index(b);
    if c < b.len() {
        seq![b.subrange(0, c as int)] + split_fields(b.subrange(c + 1 as int, b.len() as int))
    } else {
        seq![b]
    }
}

/// The number that a string of decimal digits denotes.
pub open spec fn digits_value(d: Seq<u8>) -> nat
    decreases d.len(),
{
    if d.len() == 0 {
        0
    } else {
        digits_value(d.drop_last()) * 10 + (d.last() - 48u8) as nat
    }
}

/// Whether every byte of `d` is a decimal digit.
pub open spec fn all_digits(d: Seq<u8>) -> bool {
    forall|i: int| 0 <= i < d.len() ==> is_digit(#[trigger] d[i])
}

/// `t` without a leading `+`, if it has one.
pub open spec fn without_plus(t: Seq<u8>) -> Seq<u8> {
    if t.len() > 0 && t[0] == 43u8 {
        t.drop_first()
    } else {
        t
    }
}

/// The byte a field denotes: after trimming whitespace, an optional `+` and
/// one or more decimal digits whose value is at most 255.
pub open spec fn parse_byte_field(f: Seq<u8>) -> Option<u8> {
    let d = without_plus(trim_by(f, space_class()));
    if d.len() > 0 && all_digits(d) && digits_value(d) <= 255 {
        Some(digits_value(d) as u8)
    } else {
        None
    }
}

/// The key that a text denotes: the text without its leading and trailing
/// brackets, split at commas into exactly 32 fields, each a byte.
pub open spec fn parse_key_text(b: Seq<u8>) -> Option<Seq<u8>> {
    let fields = split_fields(trim_by(b, bracket_class()));
    if fields.len() == PRIVATE_KEY_LEN && (forall|i: int|
        0 <= i < PRIVATE_KEY_LEN ==> #[trigger] parse_byte_field(fields[i]) is Some) {
        Some(Seq::new(PRIVATE_KEY_LEN as nat, |i: int| parse_byte_field(fields[i])->Some_0))
    } else {
        None
    }
}

/// The leading count is the first index whose byte fails `p`.
proof fn lemma_lead_count(b: Seq<u8>, p: spec_fn(u8) -> bool, k: int)
    requires
        0 <= k <= b.len(),
        forall|j: int| 0 <= j < k ==> p(b[j]),
        k == b.len() || !p(b[k]),
    ensures
        lead_count(b, p) == k,
    decreases k,
{
    if k > 0 {
        let rest = b.drop_first();
        assert forall|j: int| 0 <= j < k - 1 implies p(rest[j]) by {
            assert(rest[j] == b[j + 1]);
        }
        lemma_lead_count(rest, p, k - 1);
    }
}

/// The trailing count is the number of final bytes that satisfy `p` before
/// one that fails it.
proof fn lemma_trail_count(b: Seq<u8>, p: spec_fn(u8) -> bool, k: int)
    requires
        0 <= k <= b.len(),
        forall|j: int| b.len() - k <= j < b.len() ==> p(b[j]),
        k == b.len() || !p(b[b.len() - k - 1]),
    ensures
        trail_count(b, p) == k,
    decreases k,
{
    if k > 0 {
        let rest = b.drop_last();
        assert forall|j: int| rest.len() - (k - 1) <= j < rest.len() implies p(rest[j]) by {
            assert(rest[j] == b[j]);
        }
        if k - 1 < rest.len() {
            assert(rest[rest.len() - (k - 1) - 1] == b[b.len() - k - 1]);
        }
        lemma_trail_count(rest, p, k - 1);
    }
}

/// The first comma is the first index that holds a comma.
proof fn lemma_comma_index(b: Seq<u8>, k: int)
    requires
        0 <= k <= b.len(),
        forall|j: int| 0 <= j < k ==> b[j] != 44u8,
        k == b.len() || b[k] == 44u8,
    ensures
        comma_index(b) == k,
    decreases k,
{
    if k > 0 {
        let rest = b.drop_first();
        assert forall|j: int| 0 <= j < k - 1 implies rest[j] != 44u8 by {
            assert(rest[j] == b[j + 1]);
        }
        lemma_comma_index(rest, k - 1);
    }
}

/// Every text splits into at least one field.
proof fn lemma_split_nonempty(b: Seq<u8>)
    ensures
        split_fields(b).len() >= 1,
    decreases b.len(),
{
    let c = comma_index(b);
    if c < b.len() {
        lemma_split_nonempty(b.subrange(c + 1 as int, b.len() as int));
    }
}

/// A longer digit string never denotes less than its prefix.
proof fn lemma_digits_monotone(d: Seq<u8>, i: int)
    requires
        0 <= i <= d.len(),
    ensures
        digits_value(d.subrange(0, i)) <= digits_value(d),
    decreases d.len() - i,
{
    if i < d.len() {
        lemma_digits_monotone(d, i + 1);
        let pre = d.subrange(0, i + 1);
        assert(pre.drop_last() =~= d.subrange(0, i));
    } else {
        assert(d.subrange(0, i) =~= d);
    }
}

/// Whether `c` is whitespace (when `space`) or a bracket (otherwise).
fn in_class(c: u8, space: bool) -> (r: bool)
    ensures
        r == (if space {
            space_class()
        } else {
            bracket_class()
        })(c),
{
    if space {
        c == 32 || (9 <= c && c <= 13)
    } else {
        c == 91 || c == 93
    }
}

/// The bounds of `b[lo..hi]` once whitespace (when `space`) or brackets
/// (otherwise) are dropped from both ends, as `trim_by` drops them.
fn trim_bounds(b: &[u8], lo: usize, hi: usize, space: bool) -> (r: (usize, usize))
    requires
        lo <= hi <= b@.len(),
    ensures
        lo <= r.0 <= r.1 <= hi,
        b@.subrange(r.0 as int, r.1 as int) == trim_by(
            b@.subrange(lo as int, hi as int),
            if space {
                space_class()
            } else {
                bracket_class()
            },
        ),
{
    let ghost p = if space {
        space_class()
    } else {
        bracket_class()
    };
    let ghost s = b@.subrange(lo as int, hi as int);
    let mut i = lo;
    while i < hi && in_class(b[i], space)
        invariant
            lo <= i <= hi <= b@.len(),
            s == b@.subrange(lo as int, hi as int),
            p == (if space {
                space_class()
            } else {
                bracket_class()
            }),
            forall|j: int| lo <= j < i ==> p(#[trigger] b@[j]),
        decreases hi - i,
    {
        i = i + 1;
    }
    proof {
        assert forall|j: int| 0 <= j < i - lo implies p(s[j]) by {
            assert(s[j] == b@[lo + j]);
        }
        if i < hi {
            assert(s[i - lo] == b@[i as int]);
        }
        lemma_lead_count(s, p, i - lo);
    }
    let ghost t = s.subrange(i - lo, s.len() as int);
    assert(t =~= b@.subrange(i as int, hi as int));
    let mut j = hi;
    while j > i && in_class(b[j - 1], space)
        invariant
            lo <= i <= j <= hi <= b@.len(),
            t == b@.subrange(i as int, hi as int),
            p == (if space {
                space_class()
            } else {
                bracket_class()
            }),
            forall|m: int| j <= m < hi ==> p(#[trigger] b@[m]),
        decreases j - i,
    {
        j = j - 1;
    }
    proof {
        assert forall|m: int| t.len() - (hi - j) <= m < t.len() implies p(t[m]) by {
            assert(t[m] == b@[i + m]);
        }
        if j > i {
            assert(t[t.len() - (hi - j) - 1] == b@[j - 1]);
        }
        lemma_trail_count(t, p, hi - j);
        assert(b@.subrange(i as int, j as int) =~= t.subrange(0, t.len() - (hi - j)));
    }
    (i, j)
}

/// The byte that one field of the key text denotes.
fn parse_field(b: &[u8], lo: usize, hi: usize) -> (r: Option<u8>)
    requires
        lo <= hi <= b@.len(),
    ensures
        r == parse_byte_field(b@.subrange(lo as int, hi as int)),
{
    let ghost f = b@.subrange(lo as int, hi as int);
    let (s, e) = trim_bounds(b, lo, hi, true);
    let ghost t = b@.subrange(s as int, e as int);
    assert(t == trim_by(f, space_class()));
    let start = if s < e && b[s] == 43 {
        s + 1
    } else {
        s
    };
    let ghost d = b@.subrange(start as int, e as int);
    assert(d =~= without_plus(t));
    if start == e {
        return None;
    }
    let mut acc: u32 = 0;
    let mut i = start;
    while i < e
        invariant
            lo <= hi <= b@.len(),
            start <= i <= e <= b@.len(),
            d == b@.subrange(start as int, e as int),
            f == b@.subrange(lo as int, hi as int),
            t == trim_by(f, space_class()),
            d == without_plus(t),
            forall|j: int| start <= j < i ==> is_digit(#[trigger] b@[j]),
            acc as nat == digits_value(d.subrange(0, i - start)),
            acc <= 255,
        decreases e - i,
    {
        let c = b[i];
        if c < 48 || c > 57 {
            proof {
                assert(d[i - start] == c);
                assert(!is_digit(d[i - start]));
                assert(!all_digits(d));
            }
            return None;
        }
        proof {
            let pre = d.subrange(0, i - start + 1);
            assert(pre.drop_last() =~= d.subrange(0, i - start));
            assert(pre.last() == c);
        }
        acc = acc * 10 + (c - 48) as u32;
        i = i + 1;
        assert(acc as nat == digits_value(d.subrange(0, i - start)));
        if acc > 255 {
            proof {
                lemma_digits_monotone(d, i - start);
                assert(digits_value(d) > 255);
            }
            return None;
        }
    }
    proof {
        assert(d.subrange(0, i - start) =~= d);
        assert forall|j: int| 0 <= j < d.len() implies is_digit(#[trigger] d[j]) by {
            assert(d[j] == b@[start + j]);
        }
        assert(all_digits(d));
    }
    Some(acc as u8)
}

/// Reads the private token key from its text form, `[b0, b1, ..., b31]`: the
/// brackets at either end are dropped, the rest split at commas into exactly
/// 32 fields, each a decimal byte with optional whitespace and `+` sign.
/// Any other text gives `None`.
pub fn get_private_key_env(raw: &str) -> (r: Option<[u8; PRIVATE_KEY_LEN]>)
    ensures
        match parse_key_text(raw.spec_bytes()) {
            Some(k) => r is Some && r->Some_0@ == k,
            None => r is None,
        },
{
    let b = raw.as_bytes();
    let (lo, hi) = trim_bounds(b, 0, b.len(), false);
    let ghost s = b@.subrange(lo as int, hi as int);
    proof {
        assert(b@.subrange(0, b@.len() as int) =~= b@);
    }
    let ghost fields = split_fields(s);
    assert(fields == split_fields(trim_by(raw.spec_bytes(), bracket_class())));
    let mut key = [0u8; PRIVATE_KEY_LEN];
    let mut k: usize = 0;
    let mut pos = lo;
    loop
        invariant_except_break
            fields == fields.subrange(0, k as int) + split_fields(b@.subrange(pos as int, hi as int)),
        invariant
            lo <= pos <= hi <= b@.len(),
            k <= PRIVATE_KEY_LEN,
            s == b@.subrange(lo as int, hi as int),
            fields == split_fields(s),
            fields == split_fields(trim_by(raw.spec_bytes(), bracket_class())),
            k <= fields.len(),
            forall|j: int| 0 <= j < k ==> parse_byte_field(fields[j]) == Some(#[trigger] key@[j]),
        ensures
            fields.len() == k,
            k <= PRIVATE_KEY_LEN,
            fields == split_fields(trim_by(raw.spec_bytes(), bracket_class())),
            forall|j: int| 0 <= j < k ==> parse_byte_field(fields[j]) == Some(#[trigger] key@[j]),
        decreases hi - pos,
    {
        let ghost rest = b@.subrange(pos as int, hi as int);
        let mut c = pos;
        while c < hi && b[c] != 44
            invariant
                pos <= c <= hi <= b@.len(),
                rest == b@.subrange(pos as int, hi as int),
                forall|j: int| pos <= j < c ==> #[trigger] b@[j] != 44u8,
            decreases hi - c,
        {
            c = c + 1;
        }
        proof {
            assert forall|j: int| 0 <= j < c - pos implies rest[j] != 44u8 by {
                assert(rest[j] == b@[pos + j]);
            }
            if c < hi {
                assert(rest[c - pos] == b@[c as int]);
            }
            lemma_comma_index(rest, c - pos);
            assert(rest.subrange(0, c - pos) =~= b@.subrange(pos as int, c as int));
            if c < hi {
                assert(rest.subrange(c - pos + 1, rest.len() as int) =~= b@.subrange(
                    c + 1,
                    hi as int,
                ));
            }
            lemma_split_nonempty(rest);
            if c == hi {
                assert(rest.subrange(0, c - pos) =~= rest);
            }
            assert(split_fields(rest)[0] == b@.subrange(pos as int, c as int));
            assert(fields[k as int] == split_fields(rest)[0]);
        }
        if k == PRIVATE_KEY_LEN {
            assert(fields.len() > PRIVATE_KEY_LEN);
            return None;
        }
        let v = match parse_field(b, pos, c) {
            Some(v) => v,
            None => {
                assert(parse_byte_field(fields[k as int]) is None);
                return None;
            },
        };
        key[k] = v;
        k = k + 1;
        if c == hi {
            proof {
                assert(fields =~= fields.subrange(0, k as int));
            }
            break;
        }
        proof {
            let tail = split_fields(b@.subrange(c + 1, hi as int));
            assert(split_fields(rest) =~= seq![rest.subrange(0, c - pos)] + tail);
            assert(fields =~= fields.subrange(0, k as int) + tail);
        }
        pos = c + 1;
    }
    if k == PRIVATE_KEY_LEN {
        assert(key@ =~= Seq::new(PRIVATE_KEY_LEN as nat, |i: int| parse_byte_field(fields[i])->Some_0));
        assert forall|i: int| 0 <= i < PRIVATE_KEY_LEN implies #[trigger] parse_byte_field(fields[i]) is Some by {
            assert(parse_byte_field(fields[i]) == Some(key@[i]));
        }
        assert(parse_key_text(raw.spec_bytes()) == Some(key@));
        Some(key)
    } else {
        assert(parse_key_text(raw.spec_bytes()) is None);
        None
    }
}

} // verus!
