//! Text primitives shared by the indices: whitespace tokenization, case
//! folding, and string building, each against an exact mathematical
//! description.

use vstd::prelude::*;

verus! {

/// The Unicode `White_Space` characters, the set `str::split_whitespace`
/// splits on.
pub open spec fn is_ws_char(c: char) -> bool {
    let u = c as u32;
    u == 0x20 || (0x09 <= u && u <= 0x0d) || u == 0x85 || u == 0xa0 || u == 0x1680 || (0x2000 <= u
        && u <= 0x200a) || u == 0x2028 || u == 0x2029 || u == 0x202f || u == 0x205f || u == 0x3000
}

/// Runs [`is_ws_char`].
pub fn is_whitespace_char(c: char) -> (r: bool)
    ensures
        r == is_ws_char(c),
{
    let u = c as u32;
    u == 0x20 || (0x09 <= u && u <= 0x0d) || u == 0x85 || u == 0xa0 || u == 0x1680 || (0x2000 <= u
        && u <= 0x200a) || u == 0x2028 || u == 0x2029 || u == 0x202f || u == 0x205f || u == 0x3000
}

/// The maximal runs of non-whitespace characters in `s`, in order.
pub open spec fn split_ws(s: Seq<char>) -> Seq<Seq<char>>
    decreases s.len(),
{
    if s.len() == 0 {
        Seq::empty()
    } else {
        let rest = split_ws(s.drop_last());
        let c = s.last();
        if is_ws_char(c) {
            rest
        } else if s.len() >= 2 && !is_ws_char(s[s.len() - 2]) {
            rest.update(rest.len() - 1, rest.last().push(c))
        } else {
            rest.push(seq![c])
        }
    }
}

/// Relies on `String::push`: appends exactly one character at the end.
#[verifier::external_body]
pub(crate) fn push_char(s: &mut String, c: char)
    ensures
        final(s)@ == old(s)@.push(c),
{
    s.push(c);
}

/// Splits a string into whitespace-separated tokens, exactly as
/// [`split_ws`] describes.
pub fn split_whitespace_tokens(s: &str) -> (r: Vec<String>)
    ensures
        r.deep_view() == split_ws(s@),
{
    let n = s.unicode_len();
    let mut acc: Vec<String> = Vec::new();
    let mut cur = String::new();
    let mut i: usize = 0;
    while i < n
        invariant
            n == s@.len(),
            i <= n,
            cur@.len() == 0 ==> acc.deep_view() == split_ws(s@.take(i as int)),
            cur@.len() > 0 ==> split_ws(s@.take(i as int)) == acc.deep_view().push(cur@),
            cur@.len() > 0 <==> (i > 0 && !is_ws_char(s@[i - 1])),
        decreases n - i,
    {
        let c = s.get_char(i);
        proof {
            assert(s@.take(i + 1 as int).drop_last() =~= s@.take(i as int));
            assert(s@.take(i + 1 as int).last() == s@[i as int]);
        }
        if is_whitespace_char(c) {
            if cur.unicode_len() > 0 {
                let ghost old_acc = acc.deep_view();
                acc.push(cur);
                proof {
                    assert(acc.deep_view() =~= old_acc.push(acc[acc.len() - 1]@));
                }
                cur = String::new();
            }
        } else {
            if cur.unicode_len() > 0 {
                let ghost old_cur = cur@;
                push_char(&mut cur, c);
                proof {
                    let t = s@.take(i + 1 as int);
                    let rest = split_ws(s@.take(i as int));
                    assert(split_ws(t) == rest.update(
                        rest.len() - 1,
                        rest.last().push(t.last()),
                    ));
                    assert(rest == acc.deep_view().push(old_cur));
                    assert(rest.update(rest.len() - 1, rest.last().push(t.last())) =~= acc.deep_view().push(
                        cur@,
                    ));
                }
            } else {
                push_char(&mut cur, c);
                proof {
                    assert(cur@ =~= seq![c]);
                }
            }
        }
        i += 1;
    }
    proof {
        assert(s@.take(n as int) =~= s@);
    }
    if cur.unicode_len() > 0 {
        let ghost old_acc = acc.deep_view();
        acc.push(cur);
        proof {
            assert(acc.deep_view() =~= old_acc.push(acc[acc.len() - 1]@));
        }
    }
    acc
}

/// What `str::to_lowercase` returns: the Unicode lowercase mapping of a
/// character sequence, a function of the characters alone.
pub uninterp spec fn lower_of(s: Seq<char>) -> Seq<char>;

/// Relies on `str::to_lowercase`: the result depends on the characters
/// alone, and an empty string stays empty.
#[verifier::external_body]
pub(crate) fn lowercase(s: &str) -> (r: String)
    ensures
        r@ == lower_of(s@),
        s@.len() == 0 ==> r@.len() == 0,
{
    s.to_lowercase()
}

/// The whitespace tokens of `s`, each folded to lowercase.
pub open spec fn folded_split(s: Seq<char>) -> Seq<Seq<char>> {
    split_ws(s).map_values(|t: Seq<char>| lower_of(t))
}

/// Splits a string on whitespace and lowercases every token.
pub fn split_and_fold_tokens(s: &str) -> (r: Vec<String>)
    ensures
        r.deep_view() == folded_split(s@),
{
    let tokens = split_whitespace_tokens(s);
    let mut r: Vec<String> = Vec::new();
    let mut i: usize = 0;
    while i < tokens.len()
        invariant
            i <= tokens.len(),
            tokens.deep_view() == split_ws(s@),
            r.len() == i,
            forall|k: int| 0 <= k < i ==> r@[k]@ == folded_split(s@)[k],
        decreases tokens.len() - i,
    {
        let lowered = lowercase(tokens[i].as_str());
        proof {
            assert(tokens.deep_view()[i as int] == tokens@[i as int]@);
            assert(folded_split(s@)[i as int] == lower_of(split_ws(s@)[i as int]));
        }
        r.push(lowered);
        i += 1;
    }
    assert(r.deep_view() =~= folded_split(s@));
    r
}

/// The tokens joined with single spaces.
pub open spec fn join_tokens(ts: Seq<Seq<char>>) -> Seq<char>
    decreases ts.len(),
{
    if ts.len() == 0 {
        Seq::empty()
    } else if ts.len() == 1 {
        ts[0]
    } else {
        join_tokens(ts.drop_last()) + seq![' '] + ts.last()
    }
}

/// Joins tokens with single spaces, exactly as [`join_tokens`] describes.
pub fn join_with_spaces(v: &Vec<String>) -> (r: String)
    ensures
        r@ == join_tokens(v.deep_view()),
{
    let mut r = String::new();
    let mut i: usize = 0;
    while i < v.len()
        invariant
            i <= v.len(),
            r@ == join_tokens(v.deep_view().take(i as int)),
        decreases v.len() - i,
    {
        proof {
            let dv = v.deep_view();
            assert(dv.take(i + 1 as int).drop_last() =~= dv.take(i as int));
            assert(dv.take(i + 1 as int).last() == dv[i as int]);
            if i == 0 {
                assert(join_tokens(dv.take(1)) == dv[0]);
            }
        }
        if i > 0 {
            push_char(&mut r, ' ');
        }
        r.append(v[i].as_str());
        proof {
            if i > 0 {
                let dv = v.deep_view();
                assert(r@ =~= join_tokens(dv.take(i as int)) + seq![' '] + dv[i as int]);
            } else {
                assert(r@ =~= v.deep_view()[0]);
            }
        }
        i += 1;
    }
    proof {
        assert(v.deep_view().take(v.len() as int) =~= v.deep_view());
    }
    r
}

/// The character for a decimal digit.
pub open spec fn digit_char_spec(d: nat) -> char {
    if d == 0 {
        '0'
    } else if d == 1 {
        '1'
    } else if d == 2 {
        '2'
    } else if d == 3 {
        '3'
    } else if d == 4 {
        '4'
    } else if d == 5 {
        '5'
    } else if d == 6 {
        '6'
    } else if d == 7 {
        '7'
    } else if d == 8 {
        '8'
    } else {
        '9'
    }
}

/// The decimal representation of `n`, most significant digit first, with no
/// leading zeros.
pub open spec fn dec_digits(n: nat) -> Seq<char>
    decreases n,
{
    if n < 10 {
        seq![digit_char_spec(n)]
    } else {
        dec_digits(n / 10).push(digit_char_spec(n % 10))
    }
}

/// The character for one decimal digit.
pub fn digit_char(d: u64) -> (c: char)
    requires
        d < 10,
    ensures
        c == digit_char_spec(d as nat),
{
    if d == 0 {
        '0'
    } else if d == 1 {
        '1'
    } else if d == 2 {
        '2'
    } else if d == 3 {
        '3'
    } else if d == 4 {
        '4'
    } else if d == 5 {
        '5'
    } else if d == 6 {
        '6'
    } else if d == 7 {
        '7'
    } else if d == 8 {
        '8'
    } else {
        '9'
    }
}

/// Writes `n` in decimal.
pub fn u64_to_string(n: u64) -> (r: String)
    ensures
        r@ == dec_digits(n as nat),
    decreases n,
{
    if n < 10 {
        let mut r = String::new();
        push_char(&mut r, digit_char(n));
        proof {
            assert(r@ =~= seq![digit_char_spec(n as nat)]);
        }
        r
    } else {
        let mut r = u64_to_string(n / 10);
        push_char(&mut r, digit_char(n % 10));
        r
    }
}


/// Relies on `str`'s `==`: strings are equal exactly when their characters
/// are.
#[verifier::external_body]
pub(crate) fn str_eq(a: &str, b: &str) -> (r: bool)
    ensures
        r == (a@ == b@),
{
    a == b
}


/// Writes `n` in decimal.
pub fn u128_to_string(n: u128) -> (r: String)
    ensures
        r@ == dec_digits(n as nat),
    decreases n,
{
    if n < 10 {
        let mut r = String::new();
        push_char(&mut r, digit_char((n % 10) as u64));
        proof {
            assert(r@ =~= seq![digit_char_spec(n as nat)]);
        }
        r
    } else {
        let mut r = u128_to_string(n / 10);
        push_char(&mut r, digit_char((n % 10) as u64));
        r
    }
}

} // verus!
