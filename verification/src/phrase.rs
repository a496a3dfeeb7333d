use vstd::prelude::*;
use vstd::string::StringExecFns;
use vstd::string::StrSliceExecFns;
use crate::text::{lemma_first_occurrence, push_char};

verus! {

pub open spec fn is_separator(c: char) -> bool {
    c == ' ' || c == '-' || c == '_'
}

pub open spec fn ascii_lower(c: char) -> char {
    if 'A' <= c <= 'Z' {
        ((c as u32) + 32) as char
    } else {
        c
    }
}

pub open spec fn spec_format_phrase(s: Seq<char>) -> Seq<char>
    decreases s.len(),
{
    if s.len() == 0 {
        Seq::empty()
    } else if is_separator(s.last()) {
        spec_format_phrase(s.drop_last())
    } else {
        spec_format_phrase(s.drop_last()).push(ascii_lower(s.last()))
    }
}

/// Every ASCII capital letter is lowered to the letter 32 code points above it; every other
/// character is kept.
pub proof fn law_ascii_lower(c: char)
    ensures
        'A' <= c <= 'Z' ==> ascii_lower(c) as u32 == c as u32 + 32,
        !('A' <= c <= 'Z') ==> ascii_lower(c) == c,
{
}

/// The normal form of one character: a separator (` `, `-`, `_`) is dropped, an ASCII
/// capital letter is lowered, and any other character is kept.
pub proof fn law_format_char(c: char)
    ensures
        (c == ' ' || c == '-' || c == '_') ==> spec_format_phrase(seq![c]) == Seq::<char>::empty(),
        !(c == ' ' || c == '-' || c == '_') ==> spec_format_phrase(seq![c]).len() == 1,
        !(c == ' ' || c == '-' || c == '_') && 'A' <= c <= 'Z' ==> spec_format_phrase(seq![c])[0] as u32
            == c as u32 + 32,
        !(c == ' ' || c == '-' || c == '_') && !('A' <= c <= 'Z') ==> spec_format_phrase(seq![c])
            == seq![c],
{
    assert(seq![c].drop_last() == Seq::<char>::empty());
    assert(seq![c].last() == c);
    assert(spec_format_phrase(Seq::<char>::empty()) == Seq::<char>::empty());
    assert(Seq::<char>::empty().push(ascii_lower(c)) == seq![ascii_lower(c)]);
}

/// A normalised phrase holds no separator and no ASCII capital letter.
pub proof fn law_format_lowercase(s: Seq<char>)
    ensures
        forall|i: int|
            0 <= i < spec_format_phrase(s).len() ==> {
                let c = #[trigger] spec_format_phrase(s)[i];
                &&& c != ' ' && c != '-' && c != '_'
                &&& !('A' <= c <= 'Z')
            },
    decreases s.len(),
{
    if s.len() > 0 {
        law_format_lowercase(s.drop_last());
        let p = spec_format_phrase(s.drop_last());
        if !is_separator(s.last()) {
            assert forall|i: int| 0 <= i < spec_format_phrase(s).len() implies {
                let c = #[trigger] spec_format_phrase(s)[i];
                &&& c != ' ' && c != '-' && c != '_'
                &&& !('A' <= c <= 'Z')
            } by {
                if i < p.len() {
                    assert(spec_format_phrase(s)[i] == p[i]);
                }
            }
        }
    }
}

fn to_ascii_lower(c: char) -> (r: char)
    ensures
        r == ascii_lower(c),
{
    if 'A' <= c && c <= 'Z' {
        ((c as u8) + 32) as char
    } else {
        c
    }
}

pub fn format_phrase(phrase: &str) -> (r: String)
    ensures
        r@ == spec_format_phrase(phrase@),
{
    let mut out = String::new();
    for c in it: phrase.chars()
        invariant
            it.seq() == phrase@,
            out@ == spec_format_phrase(phrase@.take(it.index())),
    {
        proof {
            assert(phrase@.take(it.index() + 1).drop_last() == phrase@.take(it.index()));
        }
        if !(c == ' ' || c == '-' || c == '_') {
            push_char(&mut out, to_ascii_lower(c));
        }
    }
    proof {
        assert(phrase@.take(phrase@.len() as int) == phrase@);
    }
    out
}


/// How a connection code splits: the channel before the first `-`, and the normalised
/// phrase made of everything after it.
pub open spec fn spec_parse_phrase(s: Seq<char>) -> Option<(Seq<char>, Seq<char>)> {
    match s.index_of_first('-') {
        Some(d) => Some((s.take(d), spec_format_phrase(s.skip(d + 1)))),
        None => None,
    }
}

/// Splits a connection code `channel-words` into the channel and the normalised phrase.
/// `None` when the code holds no `-`.
pub fn parse_phrase(phrase: &str) -> (r: Option<(&str, String)>)
    ensures
        match r {
            None => spec_parse_phrase(phrase@) is None,
            Some((channel, p)) => spec_parse_phrase(phrase@) == Some((channel@, p@)),
        },
{
    let n = phrase.unicode_len();
    let mut found: Option<usize> = None;
    let mut i: usize = 0;
    for c in it: phrase.chars()
        invariant
            it.seq() == phrase@,
            n == phrase@.len(),
            i == it.index(),
            i <= n,
            match found {
                None => forall|j: int| 0 <= j < i ==> phrase@[j] != '-',
                Some(d) => d < i && phrase@[d as int] == '-' && forall|j: int|
                    0 <= j < d ==> phrase@[j] != '-',
            },
    {
        if found.is_none() && c == '-' {
            found = Some(i);
        }
        i = i + 1;
    }
    proof {
        phrase@.index_of_first_ensures('-');
    }
    match found {
        None => {
            proof {
                if phrase@.contains('-') {
                    let k = choose|k: int| 0 <= k < phrase@.len() && phrase@[k] == '-';
                    assert(phrase@[k] != '-');
                }
            }
            None
        },
        Some(d) => {
            proof {
                lemma_first_occurrence(phrase@, '-', d as int);
            }
            let channel = phrase.substring_char(0, d);
            let rest = phrase.substring_char(d + 1, n);
            proof {
                assert(rest@ == phrase@.skip(d + 1));
            }
            Some((channel, format_phrase(rest)))
        },
    }
}

/// The code shown to the user: the channel number, a `-`, then the words.
pub fn discovery_code(idx: &str, words: &str) -> (r: String)
    ensures
        r@ == idx@ + seq!['-'] + words@,
{
    let mut out = String::from_str(idx);
    push_char(&mut out, '-');
    out.append(words);
    out
}

/// Three words joined by `-`.
pub fn discovery_words(w1: &str, w2: &str, w3: &str) -> (r: String)
    ensures
        r@ == w1@ + seq!['-'] + w2@ + seq!['-'] + w3@,
{
    let mut out = String::from_str(w1);
    push_char(&mut out, '-');
    out.append(w2);
    push_char(&mut out, '-');
    out.append(w3);
    out
}

/// Normalising distributes over concatenation.
pub proof fn law_format_concat(a: Seq<char>, b: Seq<char>)
    ensures
        spec_format_phrase(a + b) == spec_format_phrase(a) + spec_format_phrase(b),
    decreases b.len(),
{
    if b.len() == 0 {
        assert(a + b == a);
        assert(spec_format_phrase(b) == Seq::<char>::empty());
        assert(spec_format_phrase(a) + Seq::<char>::empty() == spec_format_phrase(a));
    } else {
        let b2 = b.drop_last();
        law_format_concat(a, b2);
        assert((a + b).drop_last() == a + b2);
        assert((a + b).last() == b.last());
        if !is_separator(b.last()) {
            assert(spec_format_phrase(a) + spec_format_phrase(b2).push(ascii_lower(b.last()))
                == (spec_format_phrase(a) + spec_format_phrase(b2)).push(ascii_lower(b.last())));
        }
    }
}

/// Spaces, dashes and underscores in a phrase do not matter: inserting one changes nothing.
pub proof fn law_format_ignores_separator(a: Seq<char>, sep: char, b: Seq<char>)
    requires
        is_separator(sep),
    ensures
        spec_format_phrase(a + seq![sep] + b) == spec_format_phrase(a + b),
{
    law_format_concat(a + seq![sep], b);
    law_format_concat(a, seq![sep]);
    law_format_concat(a, b);
    assert(seq![sep].drop_last() == Seq::<char>::empty());
    assert(spec_format_phrase(Seq::<char>::empty()) == Seq::<char>::empty());
    assert(spec_format_phrase(seq![sep]) == Seq::<char>::empty());
    assert(spec_format_phrase(a) + Seq::<char>::empty() == spec_format_phrase(a));
}

proof fn lemma_lower_char(c: char)
    requires
        !is_separator(c),
    ensures
        !is_separator(ascii_lower(c)),
        ascii_lower(ascii_lower(c)) == ascii_lower(c),
{
    if 'A' <= c <= 'Z' {
        let l = ((c as u32) + 32) as char;
        assert('a' as u32 <= l as u32 <= 'z' as u32);
    }
}

proof fn lemma_format_clean(s: Seq<char>)
    ensures
        forall|i: int|
            0 <= i < spec_format_phrase(s).len() ==> !is_separator(
                #[trigger] spec_format_phrase(s)[i],
            ) && ascii_lower(spec_format_phrase(s)[i]) == spec_format_phrase(s)[i],
    decreases s.len(),
{
    if s.len() > 0 {
        let f2 = spec_format_phrase(s.drop_last());
        lemma_format_clean(s.drop_last());
        if !is_separator(s.last()) {
            lemma_lower_char(s.last());
            let f = f2.push(ascii_lower(s.last()));
            assert forall|i: int| 0 <= i < f.len() implies !is_separator(#[trigger] f[i])
                && ascii_lower(f[i]) == f[i] by {
                if i < f2.len() {
                    assert(f[i] == f2[i]);
                }
            }
        }
    }
}

/// Normalising a normalised phrase changes nothing.
pub proof fn law_format_idempotent(s: Seq<char>)
    ensures
        spec_format_phrase(spec_format_phrase(s)) == spec_format_phrase(s),
    decreases s.len(),
{
    if s.len() > 0 {
        let f = spec_format_phrase(s);
        let f2 = spec_format_phrase(s.drop_last());
        law_format_idempotent(s.drop_last());
        lemma_format_clean(s);
        if !is_separator(s.last()) {
            assert(f.drop_last() == f2);
            assert(f.last() == ascii_lower(s.last()));
            assert(f[f.len() - 1] == f.last());
        }
    }
}

/// Parsing a code built from a channel without `-` gives back the channel and the
/// normalised words.
pub proof fn law_parse_inverts_code(idx: Seq<char>, words: Seq<char>)
    requires
        !idx.contains('-'),
    ensures
        spec_parse_phrase(idx + seq!['-'] + words) == Some((idx, spec_format_phrase(words))),
{
    let s = idx + seq!['-'] + words;
    let d = idx.len() as int;
    assert(s[d] == '-');
    assert forall|j: int| 0 <= j < d implies s[j] != '-' by {
        assert(s[j] == idx[j]);
    }
    lemma_first_occurrence(s, '-', d);
    assert(s.take(d) == idx);
    assert(s.skip(d + 1) == words);
}

} // verus!
