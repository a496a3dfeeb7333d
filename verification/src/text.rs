use vstd::prelude::*;
use vstd::string::StringExecFns;

verus! {

/// Appends `c` to `s` (std's `String::push`).
#[verifier::external_body]
pub(crate) fn push_char(s: &mut String, c: char)
    ensures
        final(s)@ == old(s)@.push(c),
{
    s.push(c)
}

/// `d` is the first position of `c` in `s`.
pub proof fn lemma_first_occurrence(s: Seq<char>, c: char, d: int)
    requires
        0 <= d < s.len(),
        s[d] == c,
        forall|j: int| 0 <= j < d ==> s[j] != c,
    ensures
        s.index_of_first(c) == Some(d),
{
    s.index_of_first_ensures(c);
    match s.index_of_first(c) {
        Some(e) => {
            if e < d {
                assert(s[e] != c);
            } else if d < e {
                assert(s[d] != c);
            }
        },
        None => {
            assert(s.contains(c));
        },
    }
}

/// `c` does not occur in `s`.
pub proof fn lemma_no_occurrence(s: Seq<char>, c: char)
    requires
        forall|j: int| 0 <= j < s.len() ==> s[j] != c,
    ensures
        s.index_of_first(c) is None,
{
    s.index_of_first_ensures(c);
    if s.index_of_first(c) is Some {
        let e = s.index_of_first(c)->0;
        assert(s[e] != c);
    }
}

/// The plain values of a list of strings.
pub open spec fn strings_view(v: Seq<String>) -> Seq<Seq<char>> {
    v.map_values(|s: String| s@)
}

/// A line less one trailing carriage return.
pub open spec fn strip_cr(l: Seq<char>) -> Seq<char> {
    if l.len() > 0 && l.last() == '\r' {
        l.drop_last()
    } else {
        l
    }
}

/// The lines of a text as std's `str::lines` gives them: split at `\n`, a `\r` before the
/// `\n` dropped, and no empty line after a final `\n`.
pub open spec fn spec_lines(s: Seq<char>) -> Seq<Seq<char>>
    decreases s.len(),
{
    if s.len() == 0 {
        Seq::empty()
    } else {
        match s.index_of_first('\n') {
            None => seq![s],
            Some(i) => {
                proof {
                    s.index_of_first_ensures('\n');
                }
                seq![strip_cr(s.take(i))] + spec_lines(s.skip(i + 1))
            },
        }
    }
}

/// The text made of the given lines, each followed by `\n`.
pub open spec fn spec_join_lines(ls: Seq<Seq<char>>) -> Seq<char>
    decreases ls.len(),
{
    if ls.len() == 0 {
        Seq::empty()
    } else {
        spec_join_lines(ls.drop_last()) + ls.last() + seq!['\n']
    }
}

/// A line that survives the round trip through a text: no `\n`, no trailing `\r`.
pub open spec fn plain_line(l: Seq<char>) -> bool {
    (forall|j: int| 0 <= j < l.len() ==> l[j] != '\n') && !(l.len() > 0 && l.last() == '\r')
}

proof fn lemma_lines_append(a: Seq<char>, b: Seq<char>)
    requires
        a.len() == 0 || a.last() == '\n',
    ensures
        spec_lines(a + b) == spec_lines(a) + spec_lines(b),
    decreases a.len(),
{
    if a.len() == 0 {
        assert(a + b == b);
        assert(spec_lines(a) == Seq::<Seq<char>>::empty());
        assert(Seq::<Seq<char>>::empty() + spec_lines(b) == spec_lines(b));
    } else {
        a.index_of_first_ensures('\n');
        assert(a.contains('\n')) by {
            assert(a[a.len() - 1] == '\n');
        }
        let i = a.index_of_first('\n')->0;
        let ab = a + b;
        assert forall|j: int| 0 <= j < i implies ab[j] != '\n' by {
            assert(ab[j] == a[j]);
        }
        lemma_first_occurrence(ab, '\n', i);
        assert(ab.take(i) == a.take(i));
        let a2 = a.skip(i + 1);
        assert(ab.skip(i + 1) == a2 + b);
        if a2.len() > 0 {
            assert(a2.last() == a.last());
        }
        lemma_lines_append(a2, b);
        assert(spec_lines(ab) == seq![strip_cr(a.take(i))] + spec_lines(a2 + b));
        assert(spec_lines(a) == seq![strip_cr(a.take(i))] + spec_lines(a2));
        assert(seq![strip_cr(a.take(i))] + (spec_lines(a2) + spec_lines(b)) == (seq![
            strip_cr(a.take(i)),
        ] + spec_lines(a2)) + spec_lines(b));
    }
}

/// A text with no characters has no lines.
pub proof fn law_lines_empty()
    ensures
        spec_lines(Seq::<char>::empty()) == Seq::<Seq<char>>::empty(),
{
}

/// A non-empty text without `\n` is one line, the whole text (a final `\r` stays, as
/// `str::lines` keeps a carriage return that no `\n` follows).
pub proof fn law_lines_unterminated(s: Seq<char>)
    requires
        s.len() > 0,
        forall|j: int| 0 <= j < s.len() ==> s[j] != '\n',
    ensures
        spec_lines(s) == seq![s],
{
    lemma_no_occurrence(s, '\n');
}

/// A text that starts with a line `l` (no `\n` in it) ended by `\n` has `l` as its first
/// line, less a `\r` just before the `\n`, followed by the lines of the rest.
pub proof fn law_lines_first(l: Seq<char>, rest: Seq<char>)
    requires
        forall|j: int| 0 <= j < l.len() ==> l[j] != '\n',
    ensures
        spec_lines(l + seq!['\n'] + rest) == seq![
            if l.len() > 0 && l[l.len() - 1] == '\r' {
                l.take(l.len() - 1)
            } else {
                l
            },
        ] + spec_lines(rest),
{
    let s = l + seq!['\n'] + rest;
    assert forall|j: int| 0 <= j < l.len() implies s[j] != '\n' by {
        assert(s[j] == l[j]);
    }
    assert(s[l.len() as int] == '\n');
    lemma_first_occurrence(s, '\n', l.len() as int);
    assert(s.take(l.len() as int) == l);
    assert(s.skip(l.len() as int + 1) == rest);
    if l.len() > 0 {
        assert(l.drop_last() == l.take(l.len() - 1));
    }
}

/// A last line without `\n` after whole lines is kept: the lines of `a + b`, where `a` is
/// empty or ends with `\n` and `b` is non-empty without `\n`, are those of `a` and then `b`.
pub proof fn law_lines_last_unterminated(a: Seq<char>, b: Seq<char>)
    requires
        a.len() == 0 || a[a.len() - 1] == '\n',
        b.len() > 0,
        forall|j: int| 0 <= j < b.len() ==> b[j] != '\n',
    ensures
        spec_lines(a + b) == spec_lines(a).push(b),
{
    lemma_lines_append(a, b);
    law_lines_unterminated(b);
    assert(spec_lines(a) + seq![b] == spec_lines(a).push(b));
}

/// Splitting the text of plain lines gives back the lines.
pub proof fn law_lines_of_joined(ls: Seq<Seq<char>>)
    requires
        forall|i: int| 0 <= i < ls.len() ==> plain_line(#[trigger] ls[i]),
    ensures
        spec_lines(spec_join_lines(ls)) == ls,
    decreases ls.len(),
{
    if ls.len() > 0 {
        let p = ls.drop_last();
        let l = ls.last();
        assert forall|i: int| 0 <= i < p.len() implies plain_line(#[trigger] p[i]) by {
            assert(p[i] == ls[i]);
        }
        law_lines_of_joined(p);
        let j = spec_join_lines(p);
        if p.len() > 0 {
            assert(j.last() == '\n');
        }
        lemma_lines_append(j, l + seq!['\n']);
        assert(spec_join_lines(ls) == j + (l + seq!['\n']));
        let t = l + seq!['\n'];
        assert(plain_line(ls[ls.len() - 1]));
        assert forall|k: int| 0 <= k < l.len() implies t[k] != '\n' by {
            assert(t[k] == l[k]);
        }
        lemma_first_occurrence(t, '\n', l.len() as int);
        assert(t.take(l.len() as int) == l);
        assert(t.skip(l.len() as int + 1) == Seq::<char>::empty());
        assert(strip_cr(l) == l);
        assert(spec_lines(Seq::<char>::empty()) == Seq::<Seq<char>>::empty());
        assert(seq![l] + Seq::<Seq<char>>::empty() == seq![l]);
        assert(spec_lines(t) == seq![l]);
        assert(p + seq![l] == ls);
    }
}

/// Splits a text into lines as std's `str::lines` does.
pub fn split_lines(text: &str) -> (lines: Vec<String>)
    ensures
        strings_view(lines@) == spec_lines(text@),
{
    let mut out: Vec<String> = Vec::new();
    let mut cur = String::new();
    let mut pending_cr = false;
    let ghost mut start: int = 0;
    proof {
        assert(text@.skip(0) == text@);
        assert(strings_view(out@) + spec_lines(text@) == spec_lines(text@));
    }
    for c in it: text.chars()
        invariant
            it.seq() == text@,
            0 <= start <= it.index() <= text@.len(),
            strings_view(out@) + spec_lines(text@.skip(start)) == spec_lines(text@),
            (if pending_cr {
                cur@.push('\r')
            } else {
                cur@
            }) == text@.subrange(start, it.index()),
            forall|j: int| start <= j < it.index() ==> text@[j] != '\n',
            !pending_cr ==> (cur@.len() == 0 || cur@.last() != '\r'),
    {
        let ghost i = it.index();
        if c == '\n' {
            proof {
                let r = text@.skip(start);
                assert forall|j: int| 0 <= j < i - start implies r[j] != '\n' by {
                    assert(r[j] == text@[start + j]);
                }
                lemma_first_occurrence(r, '\n', i - start);
                assert(r.take(i - start) == text@.subrange(start, i));
                assert(strip_cr(r.take(i - start)) == cur@) by {
                    if pending_cr {
                        assert(cur@.push('\r').drop_last() == cur@);
                    }
                }
                assert(r.skip(i - start + 1) == text@.skip(i + 1));
                let ov = strings_view(out@);
                assert(strings_view(out@.push(cur)) == ov.push(cur@));
                assert(ov.push(cur@) + spec_lines(text@.skip(i + 1)) == ov + (seq![cur@]
                    + spec_lines(text@.skip(i + 1))));
                start = i + 1;
            }
            out.push(cur);
            cur = String::new();
            pending_cr = false;
        } else {
            proof {
                assert(c == text@[i]);
                assert(text@.subrange(start, i + 1) =~= text@.subrange(start, i).push(c));
            }
            if c == '\r' {
                if pending_cr {
                    push_char(&mut cur, '\r');
                }
                pending_cr = true;
            } else {
                if pending_cr {
                    push_char(&mut cur, '\r');
                }
                push_char(&mut cur, c);
                pending_cr = false;
            }
        }
    }
    if pending_cr {
        push_char(&mut cur, '\r');
    }
    let ghost rest = text@.skip(start);
    proof {
        assert(rest == cur@);
        assert forall|j: int| 0 <= j < rest.len() implies rest[j] != '\n' by {
            assert(rest[j] == text@[start + j]);
        }
        lemma_no_occurrence(rest, '\n');
    }
    if cur.unicode_len() > 0 {
        proof {
            assert(strings_view(out@.push(cur)) == strings_view(out@).push(cur@));
        }
        out.push(cur);
    } else {
        proof {
            assert(spec_lines(rest) == Seq::<Seq<char>>::empty());
            assert(strings_view(out@) + Seq::<Seq<char>>::empty() == strings_view(out@));
        }
    }
    out
}

/// Joins lines into a text, each followed by `\n`.
pub fn join_lines(lines: &Vec<String>) -> (text: String)
    ensures
        text@ == spec_join_lines(strings_view(lines@)),
{
    let mut out = String::new();
    let n = lines.len();
    for i in 0..n
        invariant
            n == lines@.len(),
            out@ == spec_join_lines(strings_view(lines@).take(i as int)),
    {
        let ghost ls = strings_view(lines@);
        proof {
            assert(ls.take(i + 1).drop_last() == ls.take(i as int));
            assert(ls.take(i + 1).last() == lines@[i as int]@);
        }
        out.append(lines[i].as_str());
        push_char(&mut out, '\n');
    }
    proof {
        assert(strings_view(lines@).take(n as int) == strings_view(lines@));
    }
    out
}

} // verus!
