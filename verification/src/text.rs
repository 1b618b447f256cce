//! Text helpers shared by the two codecs: decimal numbers, splitting at a
//! separator, and the spelling of option names.

use vstd::prelude::*;
use vstd::string::*;
use vstd::utf8::{decode_utf8, valid_utf8};

verus! {

/// The decimal digit that stands for `d`, for `d` below ten.
pub open spec fn digit_char(d: nat) -> char {
    if d == 0 {
        '0'
    } else if d == 1 {
        '1'
    } else if d == 2 {
        '2'
    } else if d == 3 {
        '3'
    } else if d == 4 {
        '4'
    } else if d == 5 {
        '5'
    } else if d == 6 {
        '6'
    } else if d == 7 {
        '7'
    } else if d == 8 {
        '8'
    } else {
        '9'
    }
}

/// The decimal numeral of `n`, without sign or leading zeros.
pub open spec fn decimal(n: nat) -> Seq<char>
    decreases n,
{
    if n < 10 {
        seq![digit_char(n)]
    } else {
        decimal(n / 10).push(digit_char(n % 10))
    }
}

fn digit_text(d: u32) -> (r: &'static str)
    requires
        d < 10,
    ensures
        r@ == seq![digit_char(d as nat)],
{
    proof {
        reveal_strlit("0");
        reveal_strlit("1");
        reveal_strlit("2");
        reveal_strlit("3");
        reveal_strlit("4");
        reveal_strlit("5");
        reveal_strlit("6");
        reveal_strlit("7");
        reveal_strlit("8");
        reveal_strlit("9");
    }
    let r = if d == 0 {
        "0"
    } else if d == 1 {
        "1"
    } else if d == 2 {
        "2"
    } else if d == 3 {
        "3"
    } else if d == 4 {
        "4"
    } else if d == 5 {
        "5"
    } else if d == 6 {
        "6"
    } else if d == 7 {
        "7"
    } else if d == 8 {
        "8"
    } else {
        "9"
    };
    assert(r@ =~= seq![digit_char(d as nat)]);
    r
}

/// Writes `n` as a decimal numeral.
pub fn u32_to_text(n: u32) -> (r: String)
    ensures
        r@ == decimal(n as nat),
    decreases n,
{
    if n < 10 {
        String::from_str(digit_text(n))
    } else {
        let mut r = u32_to_text(n / 10);
        r.append(digit_text(n % 10));
        assert(r@ =~= decimal(n as nat));
        r
    }
}

/// The length of the longest prefix of `s` that holds no `sep`.
pub open spec fn span<T>(s: Seq<T>, sep: T) -> nat
    decreases s.len(),
{
    if s.len() == 0 || s[0] == sep {
        0
    } else {
        1 + span(s.drop_first(), sep)
    }
}

/// `span` stops at the first `sep`, or at the end where there is none.
pub proof fn lemma_span<T>(s: Seq<T>, sep: T)
    ensures
        span(s, sep) <= s.len(),
        forall|i: int| 0 <= i < span(s, sep) ==> s[i] != sep,
        span(s, sep) < s.len() ==> s[span(s, sep) as int] == sep,
    decreases s.len(),
{
    if s.len() == 0 || s[0] == sep {
    } else {
        let t = s.drop_first();
        lemma_span(t, sep);
        assert forall|i: int| 0 <= i < span(s, sep) implies s[i] != sep by {
            if i > 0 {
                assert(0 <= i - 1 < span(t, sep));
                assert(s[i] == t[i - 1]);
            }
        }
        if span(s, sep) < s.len() {
            assert(s[span(s, sep) as int] == t[span(t, sep) as int]);
        }
    }
}

/// A position that is free of `sep` before it and stands at a `sep` or at
/// the end is the `span`.
pub proof fn lemma_span_is<T>(s: Seq<T>, sep: T, k: int)
    requires
        0 <= k <= s.len(),
        forall|i: int| 0 <= i < k ==> s[i] != sep,
        k < s.len() ==> s[k] == sep,
    ensures
        span(s, sep) == k,
{
    lemma_span(s, sep);
    let m = span(s, sep) as int;
    if m < k {
        assert(s[m] == sep);
    } else if k < m {
        assert(s[k] != sep);
    }
}

/// The pieces of `s` between its occurrences of `sep`, in order. A sequence
/// with `n` separators has `n + 1` pieces, some of them possibly empty.
pub open spec fn split<T>(s: Seq<T>, sep: T) -> Seq<Seq<T>>
    decreases s.len(),
{
    let k = span(s, sep) as int;
    if k >= s.len() {
        seq![s]
    } else {
        seq![s.subrange(0, k)] + split(s.subrange(k + 1, s.len() as int), sep)
    }
}

/// A split has at least one piece.
pub proof fn lemma_split_nonempty<T>(s: Seq<T>, sep: T)
    ensures
        split(s, sep).len() >= 1,
    decreases s.len(),
{
    lemma_span(s, sep);
    let k = span(s, sep) as int;
    if k < s.len() {
        lemma_split_nonempty(s.subrange(k + 1, s.len() as int), sep);
    }
}

/// The views of a list of strings.
pub open spec fn texts(v: Seq<String>) -> Seq<Seq<char>> {
    v.map_values(|t: String| t@)
}

/// Splits `s` at every `sep`.
pub fn split_text(s: &str, sep: char) -> (r: Vec<String>)
    ensures
        texts(r@) == split(s@, sep),
{
    let n = s.unicode_len();
    let mut r: Vec<String> = Vec::new();
    let mut start: usize = 0;
    let mut i: usize = 0;
    assert(s@.subrange(0, n as int) =~= s@);
    assert(texts(r@) =~= Seq::<Seq<char>>::empty());
    while i < n
        invariant
            n == s@.len(),
            start <= i <= n,
            forall|j: int| start <= j < i ==> s@[j] != sep,
            split(s@, sep) == texts(r@) + split(s@.subrange(start as int, n as int), sep),
        decreases n - i,
    {
        let c = s.get_char(i);
        if c == sep {
            let piece = String::from_str(s.substring_char(start, i));
            proof {
                let rest = s@.subrange(start as int, n as int);
                lemma_span_is(rest, sep, i - start);
                assert(rest.subrange(0, i - start) =~= s@.subrange(start as int, i as int));
                assert(rest.subrange(i - start + 1, rest.len() as int) =~= s@.subrange(
                    i + 1,
                    n as int,
                ));
                assert(texts(r@.push(piece)) =~= texts(r@).push(piece@));
                assert(texts(r@).push(piece@) + split(s@.subrange(i + 1, n as int), sep)
                    =~= texts(r@) + split(rest, sep));
            }
            r.push(piece);
            start = i + 1;
        }
        i += 1;
    }
    let piece = String::from_str(s.substring_char(start, n));
    proof {
        let rest = s@.subrange(start as int, n as int);
        lemma_span_is(rest, sep, n - start);
        assert(texts(r@.push(piece)) =~= texts(r@).push(piece@));
        assert(texts(r@).push(piece@) =~= texts(r@) + split(rest, sep));
    }
    r.push(piece);
    r
}

/// `name` with every underscore turned into a space.
pub open spec fn spaced(name: Seq<char>) -> Seq<char> {
    name.map_values(|c: char| if c == '_' { ' ' } else { c })
}

/// Turns the underscores of an option name into the spaces that engines
/// expect.
pub fn underscores_to_spaces(name: &str) -> (r: String)
    ensures
        r@ == spaced(name@),
{
    let n = name.unicode_len();
    let mut r = String::new();
    let mut i: usize = 0;
    proof {
        reveal_strlit(" ");
    }
    while i < n
        invariant
            n == name@.len(),
            i <= n,
            r@ == spaced(name@.subrange(0, i as int)),
            " "@ == seq![' '],
        decreases n - i,
    {
        let c = name.get_char(i);
        let ghost before = r@;
        if c == '_' {
            r.append(" ");
        } else {
            r.append(name.substring_char(i, i + 1));
        }
        proof {
            let head = name@.subrange(0, i as int);
            let next = name@.subrange(0, i + 1);
            assert(next =~= head.push(name@[i as int]));
            assert(r@ =~= spaced(next));
        }
        i += 1;
    }
    assert(name@.subrange(0, n as int) =~= name@);
    r
}

/// `String::from_utf8`: the text that `bytes` encode in UTF-8, and `None`
/// exactly where they are no valid UTF-8.
#[verifier::external_body]
pub(crate) fn text_of_utf8(bytes: Vec<u8>) -> (r: Option<String>)
    ensures
        r.is_some() == valid_utf8(bytes@),
        r matches Some(t) ==> t@ == decode_utf8(bytes@),
{
    String::from_utf8(bytes).ok()
}

} // verus!
