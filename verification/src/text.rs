//! Text helpers: splitting a command line on spaces and writing small
//! counts as text.

use vstd::prelude::*;
use vstd::std_specs::iter::IteratorSpec;
use vstd::string::{
    axiom_spec_iter, next_postcondition, StrSliceExecFns, StringExecFns,
};

verus! {

/// The views of a row of strings, element by element.
pub open spec fn strings_view(items: Seq<String>) -> Seq<Seq<char>> {
    Seq::new(
        items.len(),
        |i: int|
            if 0 <= i < items.len() {
                items[i]@
            } else {
                Seq::empty()
            },
    )
}

pub broadcast proof fn lemma_strings_view_len(items: Seq<String>)
    ensures
        #[trigger] strings_view(items).len() == items.len(),
{
}

pub broadcast proof fn lemma_strings_view_index(items: Seq<String>, i: int)
    requires
        0 <= i < items.len(),
    ensures
        #[trigger] strings_view(items)[i] == items[i]@,
{
}

/// The position of the first `c` at or after `pos`, if any.
pub open spec fn find_char(s: Seq<char>, c: char, pos: int) -> Option<int>
    recommends
        0 <= pos <= s.len(),
    decreases s.len() - pos,
{
    if pos < 0 || pos >= s.len() {
        None
    } else if s[pos] == c {
        Some(pos)
    } else {
        find_char(s, c, pos + 1)
    }
}

pub proof fn lemma_find_char_bounds(s: Seq<char>, c: char, pos: int)
    requires
        0 <= pos,
    ensures
        match find_char(s, c, pos) {
            Some(j) => pos <= j < s.len() && s[j] == c && (forall|k: int|
                pos <= k < j ==> s[k] != c),
            None => forall|k: int| pos <= k < s.len() ==> s[k] != c,
        },
    decreases s.len() - pos,
{
    if pos < s.len() && s[pos] != c {
        lemma_find_char_bounds(s, c, pos + 1);
    }
}

/// The pieces of `s` between its spaces, the way the command line is
/// read: every space separates, and two spaces in a row give an empty
/// piece. The result always holds at least one piece.
pub open spec fn split_at_spaces(s: Seq<char>) -> Seq<Seq<char>>
    decreases s.len(),
{
    match find_char(s, ' ', 0) {
        None => seq![s],
        Some(j) => {
            let rest = if 0 <= j < s.len() {
                s.subrange(j + 1, s.len() as int)
            } else {
                Seq::empty()
            };
            seq![s.take(j)] + split_at_spaces(rest)
        },
    }
}

/// The characters of `s`, one by one.
fn chars_vec(s: &str) -> (r: Vec<char>)
    ensures
        r@ == s@,
{
    broadcast use next_postcondition, axiom_spec_iter;

    let mut it = s.chars();
    let mut out: Vec<char> = Vec::new();
    proof {
        assert(out@ + it.remaining() =~= s@);
    }
    loop
        invariant
            it.obeys_prophetic_iter_laws(),
            it.decrease() is Some,
            out@ + it.remaining() == s@,
        ensures
            out@ == s@,
        decreases it.decrease()->0,
    {
        match it.next() {
            Some(c) => {
                out.push(c);
                proof {
                    assert(out@ + it.remaining() =~= s@);
                }
            },
            None => {
                proof {
                    assert(out@ + it.remaining() =~= out@);
                }
                break;
            },
        }
    }
    out
}

/// Split `s` at its spaces, exactly as [`split_at_spaces`] reads.
pub fn split_spaces(s: &str) -> (r: Vec<String>)
    ensures
        strings_view(r@) == split_at_spaces(s@),
        r@.len() >= 1,
{
    broadcast use lemma_strings_view_len, lemma_strings_view_index;

    let cv = chars_vec(s);
    let n = cv.len();
    let mut tokens: Vec<String> = Vec::new();
    let mut start: usize = 0;
    let mut i: usize = 0;
    proof {
        assert(strings_view(tokens@) =~= Seq::<Seq<char>>::empty());
        assert(s@.subrange(0, s@.len() as int) =~= s@);
        assert(Seq::<Seq<char>>::empty() + split_at_spaces(s@) =~= split_at_spaces(s@));
    }
    while i < n
        invariant
            cv@ == s@,
            n == s@.len(),
            0 <= start <= i <= n,
            forall|k: int| start <= k < i ==> s@[k] != ' ',
            strings_view(tokens@) + split_at_spaces(
                s@.subrange(start as int, s@.len() as int),
            ) == split_at_spaces(s@),
        decreases n - i,
    {
        if cv[i] == ' ' {
            let tok = s.substring_char(start, i).to_owned();
            proof {
                broadcast use lemma_strings_view_len, lemma_strings_view_index;

                let tail = s@.subrange(start as int, s@.len() as int);
                lemma_find_char_bounds(tail, ' ', 0);
                assert(tail[i - start] == ' ');
                assert forall|k: int| 0 <= k < i - start implies tail[k] != ' ' by {
                    assert(tail[k] == s@[start + k]);
                }
                assert(find_char(tail, ' ', 0) == Some(i - start));
                assert(tail.take(i - start) =~= s@.subrange(start as int, i as int));
                assert(tail.subrange(i - start + 1, tail.len() as int) =~= s@.subrange(
                    i + 1,
                    s@.len() as int,
                ));
                assert(split_at_spaces(tail) == seq![s@.subrange(start as int, i as int)]
                    + split_at_spaces(s@.subrange(i + 1, s@.len() as int)));
                assert(tok@ == s@.subrange(start as int, i as int));
                assert(strings_view(tokens@.push(tok)) =~= strings_view(tokens@).push(tok@));
                assert(strings_view(tokens@.push(tok)) + split_at_spaces(
                    s@.subrange(i + 1, s@.len() as int),
                ) =~= strings_view(tokens@) + split_at_spaces(tail));
            }
            tokens.push(tok);
            start = i + 1;
        }
        i = i + 1;
    }
    let tok = s.substring_char(start, n).to_owned();
    proof {
        broadcast use lemma_strings_view_len, lemma_strings_view_index;

        let tail = s@.subrange(start as int, s@.len() as int);
        lemma_find_char_bounds(tail, ' ', 0);
        assert forall|k: int| 0 <= k < tail.len() implies tail[k] != ' ' by {
            assert(tail[k] == s@[start + k]);
        }
        assert(find_char(tail, ' ', 0) is None);
        assert(split_at_spaces(tail) == seq![tail]);
        assert(tok@ == tail);
        assert(strings_view(tokens@.push(tok)) =~= strings_view(tokens@).push(tok@));
        assert(strings_view(tokens@.push(tok)) =~= strings_view(tokens@) + seq![tail]);
    }
    tokens.push(tok);
    tokens
}

/// The decimal text of a non-negative count.
pub open spec fn dec_chars(n: int) -> Seq<char>
    recommends
        n >= 0,
    decreases n,
{
    if n < 10 {
        seq![digit_char(n)]
    } else {
        dec_chars(n / 10).push(digit_char(n % 10))
    }
}

/// The digit character for a value below ten.
pub open spec fn digit_char(d: int) -> char
    recommends
        0 <= d < 10,
{
    if d == 0 {
        '0'
    } else if d == 1 {
        '1'
    } else if d == 2 {
        '2'
    } else if d == 3 {
        '3'
    } else if d == 4 {
        '4'
    } else if d == 5 {
        '5'
    } else if d == 6 {
        '6'
    } else if d == 7 {
        '7'
    } else if d == 8 {
        '8'
    } else {
        '9'
    }
}

/// One digit as text.
fn digit_string(d: usize) -> (r: String)
    requires
        d < 10,
    ensures
        r@ == seq![digit_char(d as int)],
{
    let r = if d == 0 {
        String::from_str("0")
    } else if d == 1 {
        String::from_str("1")
    } else if d == 2 {
        String::from_str("2")
    } else if d == 3 {
        String::from_str("3")
    } else if d == 4 {
        String::from_str("4")
    } else if d == 5 {
        String::from_str("5")
    } else if d == 6 {
        String::from_str("6")
    } else if d == 7 {
        String::from_str("7")
    } else if d == 8 {
        String::from_str("8")
    } else {
        String::from_str("9")
    };
    proof {
        reveal_strlit("0");
        reveal_strlit("1");
        reveal_strlit("2");
        reveal_strlit("3");
        reveal_strlit("4");
        reveal_strlit("5");
        reveal_strlit("6");
        reveal_strlit("7");
        reveal_strlit("8");
        reveal_strlit("9");
        assert(r@ =~= seq![digit_char(d as int)]);
    }
    r
}

/// A count as decimal text, for error messages.
pub fn usize_to_string(n: usize) -> (r: String)
    ensures
        r@ == dec_chars(n as int),
    decreases n,
{
    if n < 10 {
        digit_string(n)
    } else {
        let head = usize_to_string(n / 10);
        let tail = digit_string(n % 10);
        let r = head.concat(tail.as_str());
        proof {
            assert(r@ =~= dec_chars(n as int));
        }
        r
    }
}

} // verus!
