//! Decoding of `application/x-www-form-urlencoded` request bodies.
//!
//! A body is a `&`-separated list of segments; each non-empty segment holds
//! a key and, after the first `=`, a value (no `=` means an empty value).
//! In keys and values `+` stands for a space and `%` followed by two hex
//! digits stands for the character with that code; any other `%` is kept
//! literally. The decoder projects a body onto the two fields this service
//! reads, `email` and `name`, taking unrelated keys in stride; a key that
//! occurs twice makes the body ill-formed, as the reference decoder of the
//! transport layer rejects such bodies.

use vstd::prelude::*;

use crate::text::{chars_eq_str, chars_to_string, chars_vec};

verus! {

/// True of the characters `0`-`9`, `a`-`f` and `A`-`F`.
pub open spec fn is_hex_digit(c: char) -> bool {
    let u = c as u32;
    (0x30 <= u && u <= 0x39) || (0x61 <= u && u <= 0x66) || (0x41 <= u && u <= 0x46)
}

/// The numeric value of a hex digit.
pub open spec fn hex_digit_value(c: char) -> int
    recommends
        is_hex_digit(c),
{
    let u = c as u32;
    if 0x30 <= u && u <= 0x39 {
        u - 0x30
    } else if 0x61 <= u && u <= 0x66 {
        u - 0x61 + 10
    } else {
        u - 0x41 + 10
    }
}

/// The text a key or value denotes once `+` and `%`-escapes are decoded.
pub open spec fn decoded(s: Seq<char>) -> Seq<char>
    decreases s.len(),
{
    if s.len() == 0 {
        Seq::empty()
    } else if s[0] == '+' {
        seq![' '] + decoded(s.skip(1))
    } else if s[0] == '%' && s.len() >= 3 && is_hex_digit(s[1]) && is_hex_digit(s[2]) {
        seq![(((16 * hex_digit_value(s[1]) + hex_digit_value(s[2])) as u8) as char)] + decoded(
            s.skip(3),
        )
    } else {
        seq![s[0]] + decoded(s.skip(1))
    }
}

/// Position of the first occurrence of `sep` in `s`, or `s.len()` if absent.
pub open spec fn first_index_of(s: Seq<char>, sep: char) -> nat
    decreases s.len(),
{
    if s.len() == 0 {
        0
    } else if s[0] == sep {
        0
    } else {
        1 + first_index_of(s.skip(1), sep)
    }
}

/// Any position with no `sep` before it, and `sep` (or the end) at it,
/// is the first occurrence.
pub proof fn lemma_first_index_of_is(s: Seq<char>, sep: char, m: int)
    requires
        0 <= m <= s.len(),
        forall|k: int| 0 <= k < m ==> s[k] != sep,
        m < s.len() ==> s[m] == sep,
    ensures
        first_index_of(s, sep) == m,
    decreases s.len(),
{
    if s.len() == 0 {
    } else if s[0] == sep {
        assert(m == 0);
    } else {
        assert(m >= 1);
        assert forall|k: int| 0 <= k < m - 1 implies s.skip(1)[k] != sep by {
            assert(s.skip(1)[k] == s[k + 1]);
        }
        assert(m - 1 < s.skip(1).len() ==> s.skip(1)[m - 1] == sep);
        lemma_first_index_of_is(s.skip(1), sep, m - 1);
    }
}

/// The key a segment carries: the decoded text before the first `=`.
pub open spec fn segment_key(seg: Seq<char>) -> Seq<char> {
    decoded(seg.take(first_index_of(seg, '=') as int))
}

/// The value a segment carries: the decoded text after the first `=`,
/// or empty when the segment has no `=` at all.
pub open spec fn segment_value(seg: Seq<char>) -> Seq<char> {
    let i = first_index_of(seg, '=');
    if i >= seg.len() {
        Seq::empty()
    } else {
        decoded(seg.skip(i + 1 as int))
    }
}

/// How many non-empty segments of `body` carry the key `key`.
pub open spec fn key_count(body: Seq<char>, key: Seq<char>) -> nat
    decreases body.len(),
{
    let i = first_index_of(body, '&');
    let seg = body.take(i as int);
    let here: nat = if seg.len() > 0 && segment_key(seg) == key {
        1
    } else {
        0
    };
    if i >= body.len() {
        here
    } else {
        here + key_count(body.skip(i + 1 as int), key)
    }
}

/// The value of the first segment of `body` that carries the key `key`.
pub open spec fn first_value(body: Seq<char>, key: Seq<char>) -> Seq<char>
    recommends
        key_count(body, key) >= 1,
    decreases body.len(),
{
    let i = first_index_of(body, '&');
    let seg = body.take(i as int);
    if seg.len() > 0 && segment_key(seg) == key {
        segment_value(seg)
    } else if i >= body.len() {
        Seq::empty()
    } else {
        first_value(body.skip(i + 1 as int), key)
    }
}

/// The field `key` as the decoded body shows it: its first value, or
/// `None` when no segment carries it.
pub open spec fn field_of(body: Seq<char>, key: Seq<char>) -> Option<Seq<char>> {
    if key_count(body, key) >= 1 {
        Some(first_value(body, key))
    } else {
        None
    }
}

/// A body the decoder accepts: neither field occurs more than once.
pub open spec fn well_formed_body(body: Seq<char>) -> bool {
    key_count(body, "email"@) <= 1 && key_count(body, "name"@) <= 1
}

/// The two fields of the subscription form as one decoded body shows them:
/// each either present with its decoded text, or absent.
#[derive(Debug)]
pub struct ParsedForm {
    pub email: Option<String>,
    pub name: Option<String>,
}

impl ParsedForm {
    /// True when `self` is exactly the projection of `body` onto the
    /// `email` and `name` fields.
    pub open spec fn agrees_with(self, body: Seq<char>) -> bool {
        &&& match self.email {
            Some(s) => field_of(body, "email"@) == Some(s@),
            None => field_of(body, "email"@) is None,
        }
        &&& match self.name {
            Some(s) => field_of(body, "name"@) == Some(s@),
            None => field_of(body, "name"@) is None,
        }
    }
}

/// Why a body was rejected before validation: a field occurred twice.
#[derive(PartialEq, Eq, Structural, Clone, Copy, Debug)]
pub enum DecodeError {
    DuplicateField,
}

/// Position of the first `sep` at or after `from`, or `to` if there is none
/// before `to`.
fn find_char(v: &Vec<char>, from: usize, to: usize, sep: char) -> (j: usize)
    requires
        from <= to <= v@.len(),
    ensures
        from <= j <= to,
        forall|k: int| from <= k < j ==> v@[k] != sep,
        j < to ==> v@[j as int] == sep,
        first_index_of(v@.subrange(from as int, to as int), sep) == j - from,
{
    let mut j = from;
    while j < to
        invariant
            from <= j <= to <= v@.len(),
            forall|k: int| from <= k < j ==> v@[k] != sep,
        decreases to - j,
    {
        if v[j] == sep {
            proof {
                lemma_first_index_of_is(v@.subrange(from as int, to as int), sep, j - from);
            }
            return j;
        }
        j = j + 1;
    }
    proof {
        lemma_first_index_of_is(v@.subrange(from as int, to as int), sep, j - from);
    }
    j
}

/// Decodes `+` and `%`-escapes in `v[from..to]`.
fn decode_component(v: &Vec<char>, from: usize, to: usize) -> (out: Vec<char>)
    requires
        from <= to <= v@.len(),
    ensures
        out@ == decoded(v@.subrange(from as int, to as int)),
{
    let ghost whole = v@.subrange(from as int, to as int);
    let mut out: Vec<char> = Vec::new();
    let mut q = from;
    while q < to
        invariant
            from <= q <= to <= v@.len(),
            whole == v@.subrange(from as int, to as int),
            out@ + decoded(v@.subrange(q as int, to as int)) == decoded(whole),
        decreases to - q,
    {
        let ghost rest = v@.subrange(q as int, to as int);
        let c = v[q];
        assert(rest[0] == c);
        if c == '+' {
            out.push(' ');
            proof {
                assert(rest.skip(1) =~= v@.subrange(q + 1, to as int));
                assert(decoded(rest) == seq![' '] + decoded(rest.skip(1)));
            }
            q = q + 1;
        } else if c == '%' && to - q >= 3 && hex_value_exec(v[q + 1]).is_some() && hex_value_exec(
            v[q + 2],
        ).is_some() {
            let h1 = hex_value_exec(v[q + 1]).unwrap();
            let h2 = hex_value_exec(v[q + 2]).unwrap();
            let code: u8 = 16 * h1 + h2;
            out.push(code as char);
            proof {
                assert(rest.len() >= 3 && rest[1] == v@[q + 1] && rest[2] == v@[q + 2]);
                assert(rest.skip(3) =~= v@.subrange(q + 3, to as int));
            }
            q = q + 3;
        } else {
            out.push(c);
            proof {
                assert(rest.skip(1) =~= v@.subrange(q + 1, to as int));
                if c == '%' && rest.len() >= 3 && is_hex_digit(rest[1]) && is_hex_digit(rest[2]) {
                    assert(false);
                }
            }
            q = q + 1;
        }
    }
    proof {
        assert(v@.subrange(q as int, to as int) =~= Seq::<char>::empty());
        assert(out@ + decoded(v@.subrange(q as int, to as int)) =~= out@);
    }
    out
}

/// The numeric value of a hex digit, or `None` for any other character.
pub(crate) fn hex_value_exec(c: char) -> (r: Option<u8>)
    ensures
        r is Some <==> is_hex_digit(c),
        r matches Some(h) ==> h as int == hex_digit_value(c),
{
    let u = c as u32;
    if 0x30 <= u && u <= 0x39 {
        Some((u - 0x30) as u8)
    } else if 0x61 <= u && u <= 0x66 {
        Some((u - 0x61 + 10) as u8)
    } else if 0x41 <= u && u <= 0x46 {
        Some((u - 0x41 + 10) as u8)
    } else {
        None
    }
}

/// Decodes a request body and projects it onto the `email` and `name`
/// fields. Accepts exactly the well-formed bodies (no duplicate among the
/// two fields) and then reports each field as the body shows it; a
/// duplicate field is reported as [`DecodeError::DuplicateField`].
pub fn parse_form(body: &str) -> (r: Result<ParsedForm, DecodeError>)
    ensures
        match r {
            Ok(f) => well_formed_body(body@) && f.agrees_with(body@),
            Err(e) => e == DecodeError::DuplicateField && !well_formed_body(body@),
        },
{
    let v = chars_vec(body);
    let n = v.len();
    let mut email: Option<String> = None;
    let mut name: Option<String> = None;
    let mut p: usize = 0;
    let mut finished = false;
    proof {
        assert(v@.skip(0) =~= v@);
    }
    while !finished
        invariant
            p <= n,
            n == v@.len(),
            v@ == body@,
            ({
                let rest = if finished {
                    Seq::<char>::empty()
                } else {
                    v@.skip(p as int)
                };
                &&& match email {
                    Some(s) => {
                        &&& key_count(body@, "email"@) == 1 + key_count(rest, "email"@)
                        &&& first_value(body@, "email"@) == s@
                    },
                    None => {
                        &&& key_count(body@, "email"@) == key_count(rest, "email"@)
                        &&& first_value(body@, "email"@) == first_value(rest, "email"@)
                    },
                }
                &&& match name {
                    Some(s) => {
                        &&& key_count(body@, "name"@) == 1 + key_count(rest, "name"@)
                        &&& first_value(body@, "name"@) == s@
                    },
                    None => {
                        &&& key_count(body@, "name"@) == key_count(rest, "name"@)
                        &&& first_value(body@, "name"@) == first_value(rest, "name"@)
                    },
                }
            }),
        decreases n - p + (if finished {
            0int
        } else {
            1int
        }),
    {
        let ghost p0 = p as int;
        let ghost rest = v@.skip(p0);
        let j = find_char(&v, p, n, '&');
        proof {
            reveal_strlit("email");
            reveal_strlit("name");
            assert("email"@.len() == 5);
            assert("name"@.len() == 4);
            assert("email"@ != "name"@);
            assert(rest =~= v@.subrange(p0, n as int));
            lemma_first_index_of_is(rest, '&', j - p0);
        }
        // The current segment is v[p..j]; it is the head segment that the
        // specification's recursion over `rest` peels off.
        let ghost seg = v@.subrange(p0, j as int);
        proof {
            assert(seg =~= rest.take(j - p0));
            if j < n {
                assert(rest.skip((j - p0) + 1) =~= v@.skip(j + 1));
            }
            // Unfold the recursion: `rest` continues after the separator,
            // or ends with this segment.
            assert(key_count(rest, "email"@) == if seg.len() > 0 && segment_key(seg) == "email"@ {
                1nat
            } else {
                0nat
            } + if j < n {
                key_count(v@.skip(j + 1), "email"@)
            } else {
                0nat
            });
            assert(key_count(rest, "name"@) == if seg.len() > 0 && segment_key(seg) == "name"@ {
                1nat
            } else {
                0nat
            } + if j < n {
                key_count(v@.skip(j + 1), "name"@)
            } else {
                0nat
            });
            assert(first_value(rest, "email"@) == if seg.len() > 0 && segment_key(seg)
                == "email"@ {
                segment_value(seg)
            } else if j < n {
                first_value(v@.skip(j + 1), "email"@)
            } else {
                Seq::<char>::empty()
            });
            assert(first_value(rest, "name"@) == if seg.len() > 0 && segment_key(seg) == "name"@ {
                segment_value(seg)
            } else if j < n {
                first_value(v@.skip(j + 1), "name"@)
            } else {
                Seq::<char>::empty()
            });
        }
        if j > p {
            // Non-empty segment: split at the first `=` and decode.
            let m = find_char(&v, p, j, '=');
            proof {
                assert(v@.subrange(p0, j as int) == seg);
                assert(first_index_of(seg, '=') == m - p0);
                assert(seg.take(m - p0) =~= v@.subrange(p0, m as int));
                if m < j {
                    assert(seg.skip((m - p0) + 1) =~= v@.subrange(m + 1, j as int));
                }
            }
            let key = decode_component(&v, p, m);
            assert(key@ == segment_key(seg));
            let value = if m < j {
                decode_component(&v, m + 1, j)
            } else {
                Vec::<char>::new()
            };
            assert(value@ == segment_value(seg));
            if chars_eq_str(&key, "email") {
                if email.is_some() {
                    proof {
                        // A second `email` segment: the count over the whole
                        // body reaches two, so the body is ill-formed.
                        assert(key_count(rest, "email"@) >= 1);
                        assert(key_count(body@, "email"@) >= 2);
                    }
                    return Err(DecodeError::DuplicateField);
                }
                email = Some(chars_to_string(&value));
            } else if chars_eq_str(&key, "name") {
                if name.is_some() {
                    proof {
                        assert(key_count(rest, "name"@) >= 1);
                        assert(key_count(body@, "name"@) >= 2);
                    }
                    return Err(DecodeError::DuplicateField);
                }
                name = Some(chars_to_string(&value));
            }
        }
        if j < n {
            p = j + 1;
            proof {
                assert(v@.skip(p as int) =~= rest.skip((j - p0) + 1));
            }
        } else {
            finished = true;
            proof {
                assert(key_count(Seq::<char>::empty(), "email"@) == 0);
                assert(key_count(Seq::<char>::empty(), "name"@) == 0);
                assert(first_value(Seq::<char>::empty(), "email"@) == Seq::<char>::empty());
                assert(first_value(Seq::<char>::empty(), "name"@) == Seq::<char>::empty());
            }
        }
        proof {
            let restn = if finished {
                Seq::<char>::empty()
            } else {
                v@.skip(p as int)
            };
            assert(restn == if j < n {
                rest.skip((j - p0) + 1)
            } else {
                Seq::<char>::empty()
            });
            assert(key_count(restn, "email"@) == if j < n {
                key_count(v@.skip(j + 1), "email"@)
            } else {
                0nat
            });
            assert(key_count(rest, "email"@) == (if seg.len() > 0 && segment_key(seg)
                == "email"@ {
                1nat
            } else {
                0nat
            }) + key_count(restn, "email"@));
            assert(key_count(restn, "name"@) == if j < n {
                key_count(v@.skip(j + 1), "name"@)
            } else {
                0nat
            });
            assert(key_count(rest, "name"@) == (if seg.len() > 0 && segment_key(seg) == "name"@ {
                1nat
            } else {
                0nat
            }) + key_count(restn, "name"@));
        }
    }
    proof {
        assert(key_count(Seq::<char>::empty(), "email"@) == 0);
        assert(key_count(Seq::<char>::empty(), "name"@) == 0);
    }
    Ok(ParsedForm { email, name })
}

} // verus!
