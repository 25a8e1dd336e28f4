//! Newline-delimited list texts.
//!
//! List values are stored one element per line, joined by `\n`. The split is
//! terminator-aware: an empty text holds no elements, and a single trailing
//! newline closes the last element instead of opening an empty one.
use vstd::prelude::*;

verus! {

/// No character of `s` is a newline.
pub open spec fn no_newline(s: Seq<char>) -> bool {
    forall|i: int| 0 <= i < s.len() ==> #[trigger] s[i] != '\n'
}

/// The elements encoded by a newline-delimited text: elements are separated
/// by `\n`, a trailing `\n` is a terminator, and the empty text holds no
/// elements at all.
pub open spec fn split_lines(s: Seq<char>) -> Seq<Seq<char>>
    decreases s.len(),
{
    if s.len() == 0 {
        seq![]
    } else if s[0] == '\n' {
        seq![Seq::<char>::empty()] + split_lines(s.skip(1))
    } else if s.len() == 1 {
        seq![s]
    } else {
        let rest = split_lines(s.skip(1));
        seq![seq![s[0]] + rest[0]] + rest.skip(1)
    }
}

/// The newline-delimited text of a list of elements: elements joined by a
/// single `\n`, the empty list giving the empty text.
pub open spec fn join_lines(es: Seq<Seq<char>>) -> Seq<char>
    decreases es.len(),
{
    if es.len() == 0 {
        Seq::<char>::empty()
    } else if es.len() == 1 {
        es[0]
    } else {
        es[0] + seq!['\n'] + join_lines(es.skip(1))
    }
}

/// A nonempty text without newlines is one single element.
pub proof fn lemma_split_single(s: Seq<char>)
    requires
        s.len() > 0,
        no_newline(s),
    ensures
        split_lines(s) == seq![s],
    decreases s.len(),
{
    if s[0] != '\n' && s.len() > 1 {
        lemma_split_single(s.skip(1));
        let rest = split_lines(s.skip(1));
        assert(rest == seq![s.skip(1)]);
        assert(seq![s[0]] + rest[0] =~= s);
        assert(rest.skip(1) =~= Seq::<Seq<char>>::empty());
        assert(split_lines(s) =~= seq![s]);
    }
}

/// Splitting a newline-free head, a `\n`, and a tail yields the head as the
/// first element, then the elements of the tail.
pub proof fn lemma_split_prefix(t: Seq<char>, b: Seq<char>)
    requires
        no_newline(t),
    ensures
        split_lines(t + seq!['\n'] + b) == seq![t] + split_lines(b),
    decreases t.len(),
{
    let s = t + seq!['\n'] + b;
    if t.len() == 0 {
        assert(s[0] == '\n');
        assert(s.skip(1) =~= b);
        assert(seq![Seq::<char>::empty()] =~~= seq![t]);
    } else {
        assert(s[0] == t[0]);
        assert(s.len() > 1);
        assert(s.skip(1) =~= t.skip(1) + seq!['\n'] + b);
        lemma_split_prefix(t.skip(1), b);
        let rest = split_lines(s.skip(1));
        assert(rest == seq![t.skip(1)] + split_lines(b));
        assert(rest[0] == t.skip(1));
        assert(seq![s[0]] + rest[0] =~= t);
        assert(rest.skip(1) =~= split_lines(b));
        assert(split_lines(s) =~= seq![t] + split_lines(b));
    }
}

/// Splitting the join of a list gives the list back, provided no element
/// holds a newline and the last element (if any) is not empty. Without
/// those conditions the list text is ambiguous: an element with a newline
/// reads back as several, and a trailing empty element leaves no trace.
pub proof fn lemma_split_join(es: Seq<Seq<char>>)
    requires
        forall|i: int| 0 <= i < es.len() ==> no_newline(#[trigger] es[i]),
        es.len() == 0 || es.last().len() > 0,
    ensures
        split_lines(join_lines(es)) == es,
    decreases es.len(),
{
    if es.len() == 0 {
    } else if es.len() == 1 {
        assert(es[0] == es.last());
        lemma_split_single(es[0]);
        assert(split_lines(join_lines(es)) =~= es);
    } else {
        lemma_split_prefix(es[0], join_lines(es.skip(1)));
        lemma_split_join(es.skip(1));
        assert(es.skip(1).last() == es.last());
        assert(seq![es[0]] + es.skip(1) =~= es);
    }
}

/// The empty text holds no elements.
pub proof fn lemma_split_empty()
    ensures
        split_lines(Seq::<char>::empty()) == Seq::<Seq<char>>::empty(),
{
    assert(split_lines(Seq::<char>::empty()) =~= Seq::<Seq<char>>::empty());
}

/// A single trailing newline adds no element: unless the text already ends
/// with a newline, terminating it changes nothing about its elements.
pub proof fn lemma_split_trailing_newline(s: Seq<char>)
    requires
        s.len() > 0,
        s.last() != '\n',
    ensures
        split_lines(s.push('\n')) == split_lines(s),
    decreases s.len(),
{
    let p = s.push('\n');
    if s.len() == 1 {
        assert(s[0] != '\n');
        assert(p[0] == s[0]);
        assert(p.len() == 2);
        assert(p.skip(1) =~= seq!['\n']);
        let rest = split_lines(p.skip(1));
        assert(seq!['\n'].skip(1) =~= Seq::<char>::empty());
        assert(split_lines(Seq::<char>::empty()) =~= Seq::<Seq<char>>::empty());
        assert(rest =~~= seq![Seq::<char>::empty()]);
        assert(seq![p[0]] + rest[0] =~= s);
        assert(rest.skip(1) =~= Seq::<Seq<char>>::empty());
        assert(split_lines(p) =~= seq![s]);
        assert(split_lines(s) =~= seq![s]);
    } else {
        assert(p.skip(1) =~= s.skip(1).push('\n'));
        assert(s.skip(1).last() == s.last());
        lemma_split_trailing_newline(s.skip(1));
        if s[0] == '\n' {
            assert(split_lines(p) =~= split_lines(s));
        } else {
            assert(p[0] == s[0]);
            assert(p.len() > 1);
            assert(split_lines(p) =~= split_lines(s));
        }
    }
}

/// Two newlines in a row leave an empty element, at a position past the
/// first: the text between them is an element with no characters.
pub proof fn lemma_consecutive_newlines(s: Seq<char>, i: int)
    requires
        0 <= i,
        i + 1 < s.len(),
        s[i] == '\n',
        s[i + 1] == '\n',
    ensures
        exists|k: int|
            1 <= k < split_lines(s).len() && (#[trigger] split_lines(s)[k]).len() == 0,
    decreases i,
{
    if i == 0 {
        let rest = split_lines(s.skip(1));
        assert(s.skip(1)[0] == '\n');
        assert(split_lines(s)[1] == rest[0]);
        assert(rest[0].len() == 0);
    } else {
        assert(s.skip(1)[i - 1] == s[i]);
        assert(s.skip(1)[i] == s[i + 1]);
        lemma_consecutive_newlines(s.skip(1), i - 1);
        let rest = split_lines(s.skip(1));
        let k = choose|k: int| 1 <= k < rest.len() && (#[trigger] rest[k]).len() == 0;
        if s[0] == '\n' {
            assert(split_lines(s)[k + 1] == rest[k]);
        } else {
            assert(s.len() > 1);
            assert(split_lines(s)[k] == rest[k]);
        }
    }
}

/// Splits a text into its newline-delimited elements.
pub fn split_newlines(s: &str) -> (r: Vec<String>)
    ensures
        r.deep_view() == split_lines(s@),
{
    let n = s.unicode_len();
    let mut r: Vec<String> = Vec::new();
    let mut start: usize = 0;
    let mut i: usize = 0;
    proof {
        assert(s@.skip(0) =~= s@);
    }
    while i < n
        invariant
            0 <= start <= i <= n,
            n == s@.len(),
            no_newline(s@.subrange(start as int, i as int)),
            split_lines(s@) == r.deep_view() + split_lines(s@.skip(start as int)),
        decreases n - i,
    {
        let c = s.get_char(i);
        if c == '\n' {
            let elem = s.substring_char(start, i).to_owned();
            proof {
                assert(s@.skip(start as int) =~= s@.subrange(start as int, i as int)
                    + seq!['\n'] + s@.skip(i + 1));
                lemma_split_prefix(s@.subrange(start as int, i as int), s@.skip(i + 1));
                let prev = r.deep_view();
                assert((prev + split_lines(s@.skip(start as int))).skip(prev.len() as int)
                    =~= split_lines(s@.skip(start as int)));
            }
            let ghost prev = r.deep_view();
            r.push(elem);
            proof {
                assert(r.deep_view() =~= prev.push(elem@));
                assert(r.deep_view() + split_lines(s@.skip(i + 1)) =~= prev + (seq![
                    s@.subrange(start as int, i as int),
                ] + split_lines(s@.skip(i + 1))));
            }
            start = i + 1;
        } else {
            proof {
                assert(s@.subrange(start as int, i + 1) =~= s@.subrange(start as int, i as int)
                    .push(s@[i as int]));
            }
        }
        i = i + 1;
    }
    if start < n {
        let elem = s.substring_char(start, n).to_owned();
        proof {
            assert(s@.skip(start as int) =~= s@.subrange(start as int, n as int));
            lemma_split_single(s@.skip(start as int));
        }
        let ghost prev = r.deep_view();
        r.push(elem);
        proof {
            assert(r.deep_view() =~= prev.push(elem@));
            assert(prev + seq![s@.skip(start as int)] =~= r.deep_view());
            assert(r.deep_view() =~= split_lines(s@));
        }
    } else {
        proof {
            assert(s@.skip(start as int) =~= Seq::<char>::empty());
            lemma_split_empty();
            assert(r.deep_view() + split_lines(s@.skip(start as int)) =~= r.deep_view());
        }
    }
    r
}

/// Appending one more element extends the joined text by a newline and that
/// element.
proof fn lemma_join_push(es: Seq<Seq<char>>, x: Seq<char>)
    requires
        es.len() >= 1,
    ensures
        join_lines(es.push(x)) == join_lines(es) + seq!['\n'] + x,
    decreases es.len(),
{
    if es.len() == 1 {
        assert(es.push(x).len() == 2);
        assert(es.push(x).skip(1) =~= seq![x]);
        assert(join_lines(seq![x]) == x);
        assert(es.push(x)[0] == es[0]);
        assert(join_lines(es.push(x)) == es[0] + seq!['\n'] + x);
    } else {
        assert(es.push(x).skip(1) =~= es.skip(1).push(x));
        lemma_join_push(es.skip(1), x);
        assert(join_lines(es.push(x)) =~= join_lines(es) + seq!['\n'] + x);
    }
}

/// Joins elements into one newline-delimited text.
pub fn join_newlines(elems: &Vec<String>) -> (r: String)
    ensures
        r@ == join_lines(elems.deep_view()),
{
    let ghost es = elems.deep_view();
    let mut r = String::new();
    if elems.len() == 0 {
        proof {
            assert(r@ =~= join_lines(es));
        }
        return r;
    }
    r.append(elems[0].as_str());
    let mut i: usize = 1;
    proof {
        reveal_strlit("\n");
        assert(es.subrange(0, 1).len() == 1);
        assert(r@ =~= join_lines(es.subrange(0, 1)));
    }
    while i < elems.len()
        invariant
            1 <= i <= elems.len(),
            es == elems.deep_view(),
            es.len() == elems.len(),
            r@ == join_lines(es.subrange(0, i as int)),
        decreases elems.len() - i,
    {
        proof {
            reveal_strlit("\n");
        }
        r.append("\n");
        r.append(elems[i].as_str());
        proof {
            assert(es.subrange(0, i + 1) =~= es.subrange(0, i as int).push(es[i as int]));
            lemma_join_push(es.subrange(0, i as int), es[i as int]);
            assert(r@ =~= join_lines(es.subrange(0, i + 1)));
        }
        i = i + 1;
    }
    proof {
        assert(es.subrange(0, es.len() as int) =~= es);
    }
    r
}

} // verus!
