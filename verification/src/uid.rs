//! 128-bit subscription identifiers and their text renderings.
//!
//! An identifier is 128 bits wide. Its text forms are hex renderings: plain
//! (32 digits), hyphenated (groups of 8-4-4-4-12), braced, and URN. Fresh
//! identifiers are drawn at random through the uuid crate; all the textual
//! work is the library's own, verified logic.

use vstd::prelude::*;

use crate::form::{hex_digit_value, hex_value_exec, is_hex_digit};
use crate::text::{chars_to_string, chars_vec, push_range};

verus! {

/// The fixed bits of a randomly drawn identifier: version nibble 4 and
/// variant bits `10`.
pub open spec fn is_version4(id: u128) -> bool {
    (id >> 76) & 0xf == 4 && (id >> 62) & 0x3 == 2
}

/// Relies on `uuid::Uuid::new_v4` and `Uuid::as_u128`: a fresh identifier
/// is drawn at random with the version-4 nibble and the variant bits `10`
/// forced, and `as_u128` returns its sixteen bytes big-endian. Nothing
/// more is promised of a random value.
#[verifier::external_body]
pub fn fresh_id() -> (r: u128)
    ensures
        is_version4(r),
{
    uuid::Uuid::new_v4().as_u128()
}

/// The lower-case hex digit for a value below sixteen.
pub open spec fn hex_char_of(d: u128) -> char
    recommends
        d < 16,
{
    if d < 10 {
        ((0x30 + d) as u8) as char
    } else {
        ((0x57 + d) as u8) as char
    }
}

/// The nibble of `id` at text position `i`, most significant first.
pub open spec fn nibble(id: u128, i: int) -> u128
    recommends
        0 <= i < 32,
{
    (id >> ((124 - 4 * i) as u32)) & 0xf
}

/// The plain rendering: thirty-two hex digits, most significant first.
pub open spec fn simple_chars(id: u128) -> Seq<char> {
    Seq::new(32, |i: int| hex_char_of(nibble(id, i)))
}

/// The hyphenated rendering: digit groups of 8, 4, 4, 4 and 12.
pub open spec fn hyphenated_chars(id: u128) -> Seq<char> {
    let s = simple_chars(id);
    s.subrange(0, 8) + seq!['-'] + s.subrange(8, 12) + seq!['-'] + s.subrange(12, 16) + seq!['-']
        + s.subrange(16, 20) + seq!['-'] + s.subrange(20, 32)
}

/// The braced rendering: the hyphenated one inside curly braces.
pub open spec fn braced_chars(id: u128) -> Seq<char> {
    seq!['{'] + hyphenated_chars(id) + seq!['}']
}

/// The URN rendering: the hyphenated one after `urn:uuid:`.
pub open spec fn urn_chars(id: u128) -> Seq<char> {
    "urn:uuid:"@ + hyphenated_chars(id)
}

/// The thirty-two hex digits of `id`, as a character buffer.
fn simple_chars_vec(id: u128) -> (v: Vec<char>)
    ensures
        v@ == simple_chars(id),
{
    let mut v: Vec<char> = Vec::new();
    let mut i: usize = 0;
    while i < 32
        invariant
            i <= 32,
            v@.len() == i,
            forall|k: int| 0 <= k < i ==> v@[k] == simple_chars(id)[k],
        decreases 32 - i,
    {
        let sh: u32 = 124 - 4 * (i as u32);
        let d: u128 = (id >> sh) & 0xf;
        proof {
            assert((id >> sh) & 0xf < 16) by (bit_vector);
        }
        let du8: u8 = d as u8;
        let c: char = if du8 < 10 {
            (0x30 + du8) as char
        } else {
            (0x57 + du8) as char
        };
        assert(c == hex_char_of(nibble(id, i as int)));
        v.push(c);
        i = i + 1;
    }
    proof {
        assert(v@ =~= simple_chars(id));
    }
    v
}

/// Renders `id` as its thirty-two plain hex digits.
pub fn simple_string(id: u128) -> (r: String)
    ensures
        r@ == simple_chars(id),
{
    let v = simple_chars_vec(id);
    chars_to_string(&v)
}

/// The hyphenated rendering of `id`, as a character buffer.
fn hyphenated_chars_vec(id: u128) -> (v: Vec<char>)
    ensures
        v@ == hyphenated_chars(id),
{
    let s = simple_chars_vec(id);
    let mut v: Vec<char> = Vec::new();
    push_range(&mut v, &s, 0, 8);
    v.push('-');
    push_range(&mut v, &s, 8, 12);
    v.push('-');
    push_range(&mut v, &s, 12, 16);
    v.push('-');
    push_range(&mut v, &s, 16, 20);
    v.push('-');
    push_range(&mut v, &s, 20, 32);
    proof {
        assert(v@ =~= hyphenated_chars(id));
    }
    v
}

/// Renders `id` hyphenated, as `to_string` on an identifier does.
pub fn hyphenated_string(id: u128) -> (r: String)
    ensures
        r@ == hyphenated_chars(id),
{
    let v = hyphenated_chars_vec(id);
    chars_to_string(&v)
}

/// Renders `id` hyphenated inside braces.
pub fn braced_string(id: u128) -> (r: String)
    ensures
        r@ == braced_chars(id),
{
    let h = hyphenated_chars_vec(id);
    let mut v: Vec<char> = Vec::new();
    v.push('{');
    let hn = h.len();
    push_range(&mut v, &h, 0, hn);
    v.push('}');
    proof {
        assert(v@ =~= braced_chars(id));
    }
    chars_to_string(&v)
}

/// Renders `id` as a URN.
pub fn urn_string(id: u128) -> (r: String)
    ensures
        r@ == urn_chars(id),
{
    let h = hyphenated_chars_vec(id);
    let mut v = chars_vec("urn:uuid:");
    let hn = h.len();
    push_range(&mut v, &h, 0, hn);
    proof {
        assert(v@ =~= urn_chars(id));
    }
    chars_to_string(&v)
}

/// True when every character of `s` is a hex digit.
pub open spec fn all_hex(s: Seq<char>) -> bool {
    forall|k: int| 0 <= k < s.len() ==> is_hex_digit(#[trigger] s[k])
}

/// The value of up to thirty-two hex digits, most significant first.
pub open spec fn hex_seq_value(s: Seq<char>) -> u128
    recommends
        s.len() <= 32,
        all_hex(s),
    decreases s.len(),
{
    if s.len() == 0 {
        0
    } else {
        (hex_seq_value(s.drop_last()) << 4) | ((hex_digit_value(s.last()) as u128) & 0xf)
    }
}

/// A plain rendering: exactly thirty-two hex digits, of either case.
pub open spec fn is_simple_text(s: Seq<char>) -> bool {
    s.len() == 32 && all_hex(s)
}

/// A position that holds a dash in the hyphenated rendering.
pub open spec fn is_dash_position(k: int) -> bool {
    k == 8 || k == 13 || k == 18 || k == 23
}

/// A hyphenated rendering: 36 characters, dashes between the digit groups.
pub open spec fn is_hyphenated_text(s: Seq<char>) -> bool {
    &&& s.len() == 36
    &&& s[8] == '-' && s[13] == '-' && s[18] == '-' && s[23] == '-'
    &&& forall|k: int|
        0 <= k < 36 && !is_dash_position(k) ==> is_hex_digit(#[trigger] s[k])
}

/// The thirty-two digits of a hyphenated rendering, dashes removed.
pub open spec fn undashed(s: Seq<char>) -> Seq<char>
    recommends
        s.len() == 36,
{
    s.subrange(0, 8) + s.subrange(9, 13) + s.subrange(14, 18) + s.subrange(19, 23) + s.subrange(
        24,
        36,
    )
}

/// The identifier a piece of text denotes, in any of the four renderings,
/// or `None` when it is in no such form.
pub open spec fn id_of_text(s: Seq<char>) -> Option<u128> {
    if s.len() == 32 {
        if is_simple_text(s) {
            Some(hex_seq_value(s))
        } else {
            None
        }
    } else if s.len() == 36 {
        if is_hyphenated_text(s) {
            Some(hex_seq_value(undashed(s)))
        } else {
            None
        }
    } else if s.len() == 38 {
        if s[0] == '{' && s[37] == '}' && is_hyphenated_text(s.subrange(1, 37)) {
            Some(hex_seq_value(undashed(s.subrange(1, 37))))
        } else {
            None
        }
    } else if s.len() == 45 {
        if s.subrange(0, 9) == "urn:uuid:"@ && is_hyphenated_text(s.subrange(9, 45)) {
            Some(hex_seq_value(undashed(s.subrange(9, 45))))
        } else {
            None
        }
    } else {
        None
    }
}

/// Reads the hex digits `v[from..to]`, extending the value `acc` of the
/// digits `pre` already read; fails on the first character that is no hex
/// digit.
fn parse_hex_run(v: &Vec<char>, from: usize, to: usize, acc: u128, Ghost(pre): Ghost<Seq<char>>) -> (r:
    Option<u128>)
    requires
        from <= to <= v@.len(),
        pre.len() + (to - from) <= 32,
        acc == hex_seq_value(pre),
    ensures
        all_hex(v@.subrange(from as int, to as int)) ==> r == Some(
            hex_seq_value(pre + v@.subrange(from as int, to as int)),
        ),
        !all_hex(v@.subrange(from as int, to as int)) ==> r is None,
{
    let mut q = from;
    let mut acc = acc;
    proof {
        assert(pre + v@.subrange(from as int, from as int) =~= pre);
    }
    while q < to
        invariant
            from <= q <= to <= v@.len(),
            forall|k: int| from <= k < q ==> is_hex_digit(#[trigger] v@[k]),
            acc == hex_seq_value(pre + v@.subrange(from as int, q as int)),
        decreases to - q,
    {
        match hex_value_exec(v[q]) {
            None => {
                proof {
                    assert(v@.subrange(from as int, to as int)[q - from] == v@[q as int]);
                }
                return None;
            },
            Some(d) => {
                proof {
                    let prev = pre + v@.subrange(from as int, q as int);
                    let next = pre + v@.subrange(from as int, q + 1);
                    assert(next =~= prev.push(v@[q as int]));
                    assert(next.drop_last() =~= prev);
                    assert(next.last() == v@[q as int]);
                    assert((d as u128) & 0xf == d as u128) by (bit_vector)
                        requires
                            d < 16,
                    ;
                }
                acc = (acc << 4) | (d as u128);
                q = q + 1;
            },
        }
    }
    proof {
        assert(all_hex(v@.subrange(from as int, to as int)));
    }
    Some(acc)
}

/// Reads a 36-character hyphenated identifier starting at `base` in `v`.
fn parse_hyphenated_at(v: &Vec<char>, base: usize) -> (r: Option<u128>)
    requires
        base + 36 <= v@.len(),
    ensures
        ({
            let w = v@.subrange(base as int, base + 36);
            if is_hyphenated_text(w) {
                r == Some(hex_seq_value(undashed(w)))
            } else {
                r is None
            }
        }),
{
    let n = v.len();
    let ghost w = v@.subrange(base as int, base + 36);
    proof {
        assert(base + 36 <= n);
        assert(forall|k: int| 0 <= k < 36 ==> w[k] == v@[base + k]);
    }
    if !(v[base + 8] == '-' && v[base + 13] == '-' && v[base + 18] == '-' && v[base + 23] == '-') {
        return None;
    }
    let ghost g1 = v@.subrange(base as int, base + 8);
    let ghost g2 = v@.subrange(base + 9, base + 13);
    let ghost g3 = v@.subrange(base + 14, base + 18);
    let ghost g4 = v@.subrange(base + 19, base + 23);
    let ghost g5 = v@.subrange(base + 24, base + 36);
    proof {
        assert(g1 =~= w.subrange(0, 8));
        assert(g2 =~= w.subrange(9, 13));
        assert(g3 =~= w.subrange(14, 18));
        assert(g4 =~= w.subrange(19, 23));
        assert(g5 =~= w.subrange(24, 36));
        if is_hyphenated_text(w) {
            assert forall|k: int| 0 <= k < g1.len() implies is_hex_digit(#[trigger] g1[k]) by {
                assert(g1[k] == w[k]);
            }
            assert forall|k: int| 0 <= k < g2.len() implies is_hex_digit(#[trigger] g2[k]) by {
                assert(g2[k] == w[k + 9]);
            }
            assert forall|k: int| 0 <= k < g3.len() implies is_hex_digit(#[trigger] g3[k]) by {
                assert(g3[k] == w[k + 14]);
            }
            assert forall|k: int| 0 <= k < g4.len() implies is_hex_digit(#[trigger] g4[k]) by {
                assert(g4[k] == w[k + 19]);
            }
            assert forall|k: int| 0 <= k < g5.len() implies is_hex_digit(#[trigger] g5[k]) by {
                assert(g5[k] == w[k + 24]);
            }
            assert(all_hex(g1) && all_hex(g2) && all_hex(g3) && all_hex(g4) && all_hex(g5));
        }
    }
    let x1 = match parse_hex_run(v, base, base + 8, 0, Ghost(Seq::empty())) {
        None => {
            return None;
        },
        Some(x) => x,
    };
    let ghost p1 = Seq::<char>::empty() + g1;
    let x2 = match parse_hex_run(v, base + 9, base + 13, x1, Ghost(p1)) {
        None => {
            return None;
        },
        Some(x) => x,
    };
    let ghost p2 = p1 + g2;
    let x3 = match parse_hex_run(v, base + 14, base + 18, x2, Ghost(p2)) {
        None => {
            return None;
        },
        Some(x) => x,
    };
    let ghost p3 = p2 + g3;
    let x4 = match parse_hex_run(v, base + 19, base + 23, x3, Ghost(p3)) {
        None => {
            return None;
        },
        Some(x) => x,
    };
    let ghost p4 = p3 + g4;
    let x5 = match parse_hex_run(v, base + 24, base + 36, x4, Ghost(p4)) {
        None => {
            return None;
        },
        Some(x) => x,
    };
    proof {
        assert(p4 + g5 =~= undashed(w));
        assert(is_hyphenated_text(w)) by {
            assert forall|k: int| 0 <= k < 36 && !is_dash_position(k) implies is_hex_digit(
                w[k],
            ) by {
                if k < 8 {
                    assert(w[k] == g1[k]);
                } else if k < 13 {
                    assert(w[k] == g2[k - 9]);
                } else if k < 18 {
                    assert(w[k] == g3[k - 14]);
                } else if k < 23 {
                    assert(w[k] == g4[k - 19]);
                } else {
                    assert(w[k] == g5[k - 24]);
                }
            }
        }
    }
    Some(x5)
}

/// Parses an identifier in any of the four renderings: plain, hyphenated,
/// braced, or URN; hex digits of either case are accepted.
pub fn parse_id(s: &str) -> (r: Option<u128>)
    ensures
        r == id_of_text(s@),
{
    let v = chars_vec(s);
    let n = v.len();
    if n == 32 {
        proof {
            assert(v@.subrange(0, 32) =~= v@);
            assert(Seq::<char>::empty() + v@.subrange(0, 32) =~= v@);
        }
        parse_hex_run(&v, 0, 32, 0, Ghost(Seq::empty()))
    } else if n == 36 {
        proof {
            assert(v@.subrange(0, 36) =~= v@);
        }
        parse_hyphenated_at(&v, 0)
    } else if n == 38 {
        if v[0] == '{' && v[37] == '}' {
            proof {
                assert(v@.subrange(1, 37) =~= s@.subrange(1, 37));
            }
            parse_hyphenated_at(&v, 1)
        } else {
            None
        }
    } else if n == 45 {
        let w = chars_vec("urn:uuid:");
        proof {
            reveal_strlit("urn:uuid:");
            assert("urn:uuid:"@.len() == 9);
        }
        let mut ok = true;
        let mut k: usize = 0;
        while k < 9
            invariant
                k <= 9,
                w@ == "urn:uuid:"@,
                w@.len() == 9,
                n == 45,
                n == v@.len(),
                v@ == s@,
                ok == (forall|t: int| 0 <= t < k ==> v@[t] == w@[t]),
            decreases 9 - k,
        {
            if v[k] != w[k] {
                ok = false;
            }
            k = k + 1;
        }
        if ok {
            proof {
                assert(s@.subrange(0, 9) =~= "urn:uuid:"@);
                assert(v@.subrange(9, 45) =~= s@.subrange(9, 45));
            }
            parse_hyphenated_at(&v, 9)
        } else {
            proof {
                assert(s@.subrange(0, 9) != "urn:uuid:"@) by {
                    let t = choose|t: int| 0 <= t < 9 && v@[t] != w@[t];
                    assert(s@.subrange(0, 9)[t] != "urn:uuid:"@[t]);
                }
            }
            None
        }
    } else {
        None
    }
}

/// A digit below sixteen survives the hex round trip.
proof fn lemma_hex_char_of_value(d: u128)
    requires
        d < 16,
    ensures
        is_hex_digit(hex_char_of(d)),
        hex_digit_value(hex_char_of(d)) == d,
{
    if d < 10 {
        assert(hex_char_of(d) as u32 == 0x30 + d);
    } else {
        assert(hex_char_of(d) as u32 == 0x57 + d);
    }
}

/// The value of the first `k` digits of the plain rendering of `id` is the
/// top `4 * k` bits of `id`.
proof fn lemma_hex_value_of_simple_prefix(id: u128, k: int)
    requires
        1 <= k <= 32,
    ensures
        hex_seq_value(simple_chars(id).take(k)) == id >> ((128 - 4 * k) as u32),
    decreases k,
{
    let s = simple_chars(id);
    let d = nibble(id, k - 1);
    assert(s.take(k).drop_last() =~= s.take(k - 1));
    assert(s.take(k).last() == hex_char_of(d));
    let sh = (128 - 4 * k) as u32;
    let sh4 = (132 - 4 * k) as u32;
    assert((id >> sh) & 0xf < 16) by (bit_vector);
    assert(d == (id >> sh) & 0xf);
    lemma_hex_char_of_value(d);
    assert(hex_digit_value(s.take(k).last()) == d);
    assert((hex_digit_value(s.take(k).last()) as u128) == d);
    if k == 1 {
        assert(s.take(0) =~= Seq::<char>::empty());
        assert(hex_seq_value(s.take(1).drop_last()) == 0);
        assert(hex_seq_value(s.take(1)) == (0u128 << 4) | (d & 0xf));
        assert((0u128 << 4) | (((id >> sh) & 0xf) & 0xf) == id >> sh) by (bit_vector)
            requires
                sh == 124,
        ;
    } else {
        lemma_hex_value_of_simple_prefix(id, k - 1);
        assert(hex_seq_value(s.take(k - 1)) == id >> sh4);
        assert(hex_seq_value(s.take(k)) == (hex_seq_value(s.take(k - 1)) << 4) | (d & 0xf));
        assert(((id >> sh4) << 4) | (((id >> sh) & 0xf) & 0xf) == id >> sh) by (bit_vector)
            requires
                sh <= 120 && sh4 == sh + 4,
        ;
    }
}

/// Every character of the plain rendering is a hex digit.
proof fn lemma_simple_chars_all_hex(id: u128)
    ensures
        is_simple_text(simple_chars(id)),
{
    let s = simple_chars(id);
    assert forall|k: int| 0 <= k < s.len() implies is_hex_digit(#[trigger] s[k]) by {
        let sh = (124 - 4 * k) as u32;
        assert((id >> sh) & 0xf < 16) by (bit_vector);
        lemma_hex_char_of_value((id >> sh) & 0xf);
    }
}

/// Parsing the plain rendering of an identifier gives that identifier
/// back.
pub proof fn lemma_simple_round_trip(id: u128)
    ensures
        id_of_text(simple_chars(id)) == Some(id),
{
    let s = simple_chars(id);
    lemma_simple_chars_all_hex(id);
    lemma_hex_value_of_simple_prefix(id, 32);
    assert(s.take(32) =~= s);
    assert(id >> 0u32 == id) by (bit_vector);
}

/// Parsing the hyphenated rendering of an identifier gives that identifier
/// back.
pub proof fn lemma_hyphenated_round_trip(id: u128)
    ensures
        id_of_text(hyphenated_chars(id)) == Some(id),
{
    let s = simple_chars(id);
    let h = hyphenated_chars(id);
    lemma_simple_chars_all_hex(id);
    assert(h.len() == 36);
    assert(h[8] == '-' && h[13] == '-' && h[18] == '-' && h[23] == '-');
    assert(undashed(h) =~= s);
    assert forall|k: int| 0 <= k < 36 && !is_dash_position(k) implies is_hex_digit(
        #[trigger] h[k],
    ) by {
        if k < 8 {
            assert(h[k] == s[k]);
        } else if k < 13 {
            assert(h[k] == s[k - 1]);
        } else if k < 18 {
            assert(h[k] == s[k - 2]);
        } else if k < 23 {
            assert(h[k] == s[k - 3]);
        } else {
            assert(h[k] == s[k - 4]);
        }
    }
    assert(is_hyphenated_text(h));
    lemma_hex_value_of_simple_prefix(id, 32);
    assert(s.take(32) =~= s);
    assert(id >> 0u32 == id) by (bit_vector);
}

/// Distinct identifiers have distinct hyphenated renderings; a run of the
/// test harness named after a fresh identifier therefore never collides
/// with another run's database.
pub proof fn lemma_distinct_ids_distinct_names(a: u128, b: u128)
    requires
        a != b,
    ensures
        hyphenated_chars(a) != hyphenated_chars(b),
{
    if hyphenated_chars(a) == hyphenated_chars(b) {
        lemma_hyphenated_round_trip(a);
        lemma_hyphenated_round_trip(b);
        assert(false);
    }
}

} // verus!
