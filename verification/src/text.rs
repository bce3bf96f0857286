//! Text primitives on character sequences: separator splitting and
//! whitespace trimming, each with its mathematical definition.

use vstd::prelude::*;
use vstd::std_specs::iter::IteratorSpec;

verus! {

/// Whether `c` carries the Unicode `White_Space` property.
pub open spec fn is_space(c: char) -> bool {
    let n = c as int;
    ||| 0x09 <= n <= 0x0D
    ||| n == 0x20
    ||| n == 0x85
    ||| n == 0xA0
    ||| n == 0x1680
    ||| 0x2000 <= n <= 0x200A
    ||| n == 0x2028
    ||| n == 0x2029
    ||| n == 0x202F
    ||| n == 0x205F
    ||| n == 0x3000
}

/// The fields of `s` between occurrences of `sep`. A text without a
/// separator is one field; an empty text is one empty field.
pub open spec fn split(s: Seq<char>, sep: char) -> Seq<Seq<char>>
    decreases s.len(),
{
    if s.len() == 0 {
        seq![Seq::<char>::empty()]
    } else {
        let head = split(s.drop_last(), sep);
        if s.last() == sep {
            head.push(Seq::<char>::empty())
        } else {
            head.drop_last().push(head.last().push(s.last()))
        }
    }
}

/// `s` without its leading whitespace.
pub open spec fn trim_start(s: Seq<char>) -> Seq<char>
    decreases s.len(),
{
    if s.len() > 0 && is_space(s[0]) {
        trim_start(s.drop_first())
    } else {
        s
    }
}

/// `s` without its trailing whitespace.
pub open spec fn trim_end(s: Seq<char>) -> Seq<char>
    decreases s.len(),
{
    if s.len() > 0 && is_space(s.last()) {
        trim_end(s.drop_last())
    } else {
        s
    }
}

/// `s` without its surrounding whitespace.
pub open spec fn trim(s: Seq<char>) -> Seq<char> {
    trim_end(trim_start(s))
}

/// The pieces of `s` that the index pairs in `spans` delimit, in order.
pub open spec fn span_texts(s: Seq<char>, spans: Seq<(usize, usize)>) -> Seq<Seq<char>> {
    Seq::new(spans.len(), |i: int| s.subrange(spans[i].0 as int, spans[i].1 as int))
}

/// Every pair in `spans` is a range inside `lo..hi`.
pub open spec fn spans_within(spans: Seq<(usize, usize)>, lo: int, hi: int) -> bool {
    forall|i: int| 0 <= i < spans.len() ==> lo <= (#[trigger] spans[i]).0 <= spans[i].1 <= hi
}

/// A split always yields at least one field.
pub proof fn lemma_split_nonempty(s: Seq<char>, sep: char)
    ensures
        split(s, sep).len() >= 1,
    decreases s.len(),
{
    if s.len() > 0 {
        lemma_split_nonempty(s.drop_last(), sep);
    }
}

/// A text without a separator is a single field.
pub proof fn lemma_split_single(s: Seq<char>, sep: char)
    requires
        forall|i: int| 0 <= i < s.len() ==> s[i] != sep,
    ensures
        split(s, sep) == seq![s],
    decreases s.len(),
{
    if s.len() > 0 {
        lemma_split_single(s.drop_last(), sep);
        assert(s.drop_last().push(s.last()) =~= s);
        assert(seq![s.drop_last()].drop_last().push(s) =~= seq![s]);
    } else {
        assert(s =~= Seq::<char>::empty());
    }
}

/// Splitting two texts joined by a separator gives the fields of the
/// first, then those of the second.
pub proof fn lemma_split_joined(a: Seq<char>, b: Seq<char>, sep: char)
    ensures
        split(a + seq![sep] + b, sep) == split(a, sep) + split(b, sep),
    decreases b.len(),
{
    let s = a + seq![sep] + b;
    if b.len() == 0 {
        assert(s.drop_last() =~= a);
        assert(split(a, sep).push(Seq::<char>::empty()) =~= split(a, sep) + split(b, sep));
    } else {
        let rest = b.drop_last();
        assert(s.drop_last() =~= a + seq![sep] + rest);
        assert(s.last() == b.last());
        lemma_split_joined(a, rest, sep);
        lemma_split_nonempty(rest, sep);
        let head = split(a, sep) + split(rest, sep);
        if b.last() == sep {
            assert(head.push(Seq::<char>::empty()) =~= split(a, sep) + split(b, sep));
        } else {
            assert(head.last() == split(rest, sep).last());
            assert(head.drop_last() =~= split(a, sep) + split(rest, sep).drop_last());
            assert(head.drop_last().push(head.last().push(b.last())) =~= split(a, sep) + split(
                b,
                sep,
            ));
        }
    }
}

/// The fields joined again, with `sep` between neighbours.
pub open spec fn join(fields: Seq<Seq<char>>, sep: char) -> Seq<char>
    decreases fields.len(),
{
    if fields.len() == 0 {
        Seq::empty()
    } else if fields.len() == 1 {
        fields[0]
    } else {
        join(fields.drop_last(), sep) + seq![sep] + fields.last()
    }
}

/// Joining the fields of a text gives the text back, and no field holds a
/// separator.
pub proof fn lemma_join_split(s: Seq<char>, sep: char)
    ensures
        join(split(s, sep), sep) == s,
        forall|i: int, j: int|
            0 <= i < split(s, sep).len() && 0 <= j < split(s, sep)[i].len() ==> split(
                s,
                sep,
            )[i][j] != sep,
    decreases s.len(),
{
    if s.len() == 0 {
        assert(s =~= Seq::<char>::empty());
    } else {
        let head = split(s.drop_last(), sep);
        lemma_join_split(s.drop_last(), sep);
        lemma_split_nonempty(s.drop_last(), sep);
        let c = s.last();
        if c == sep {
            let fields = head.push(Seq::<char>::empty());
            assert(fields.drop_last() =~= head);
            assert(join(fields, sep) =~= s.drop_last().push(c));
            assert(s.drop_last().push(c) =~= s);
        } else {
            let fields = head.drop_last().push(head.last().push(c));
            if head.len() == 1 {
                assert(join(fields, sep) =~= head[0].push(c));
            } else {
                assert(fields.drop_last() =~= head.drop_last());
                assert(join(fields, sep) =~= join(head, sep).push(c));
            }
            assert(s.drop_last().push(c) =~= s);
        }
    }
}

/// Whether every character of `s` is whitespace.
pub open spec fn all_space(s: Seq<char>) -> bool {
    forall|i: int| 0 <= i < s.len() ==> is_space(#[trigger] s[i])
}

/// Leading whitespace is dropped, whatever follows it.
pub proof fn lemma_trim_start_padded(lead: Seq<char>, rest: Seq<char>)
    requires
        all_space(lead),
    ensures
        trim_start(lead + rest) == trim_start(rest),
    decreases lead.len(),
{
    if lead.len() == 0 {
        assert(lead + rest =~= rest);
    } else {
        assert((lead + rest)[0] == lead[0]);
        assert((lead + rest).drop_first() =~= lead.drop_first() + rest);
        assert forall|i: int| 0 <= i < lead.drop_first().len() implies is_space(
            #[trigger] lead.drop_first()[i],
        ) by {
            assert(lead.drop_first()[i] == lead[i + 1]);
        }
        lemma_trim_start_padded(lead.drop_first(), rest);
    }
}

/// Trailing whitespace is dropped, whatever stands before it.
pub proof fn lemma_trim_end_padded(rest: Seq<char>, trail: Seq<char>)
    requires
        all_space(trail),
    ensures
        trim_end(rest + trail) == trim_end(rest),
    decreases trail.len(),
{
    if trail.len() == 0 {
        assert(rest + trail =~= rest);
    } else {
        assert((rest + trail).last() == trail.last());
        assert((rest + trail).drop_last() =~= rest + trail.drop_last());
        assert forall|i: int| 0 <= i < trail.drop_last().len() implies is_space(
            #[trigger] trail.drop_last()[i],
        ) by {
            assert(trail.drop_last()[i] == trail[i]);
        }
        lemma_trim_end_padded(rest, trail.drop_last());
    }
}

/// Trimming takes whitespace away from both ends and leaves a text that
/// begins and ends with other characters as it is.
pub proof fn lemma_trim_padded(lead: Seq<char>, body: Seq<char>, trail: Seq<char>)
    requires
        all_space(lead),
        all_space(trail),
        body.len() > 0,
        !is_space(body[0]),
        !is_space(body.last()),
    ensures
        trim(lead + body + trail) == body,
{
    assert(lead + body + trail =~= lead + (body + trail));
    lemma_trim_start_padded(lead, body + trail);
    assert((body + trail)[0] == body[0]);
    assert(trim_start(body + trail) == body + trail);
    lemma_trim_end_padded(body, trail);
}

/// The characters of `s`, in order.
pub fn to_chars(s: &str) -> (r: Vec<char>)
    ensures
        r@ == s@,
{
    broadcast use vstd::string::group_string_axioms;

    let mut it = s.chars();
    let mut r: Vec<char> = Vec::new();
    loop
        invariant
            it.obeys_prophetic_iter_laws(),
            it.decrease() is Some,
            r@ + it.remaining() == s@,
        ensures
            r@ == s@,
        decreases it.decrease()->0,
    {
        let ghost before = it.remaining();
        match it.next() {
            Some(c) => {
                r.push(c);
                assert(r@ + it.remaining() =~= r@.drop_last() + before);
            },
            None => {
                assert(r@ + before =~= r@);
                break ;
            },
        }
    }
    r
}

/// Tests a character for Unicode whitespace.
pub fn is_space_char(c: char) -> (r: bool)
    ensures
        r == is_space(c),
{
    let n: u32 = c as u32;
    (0x09 <= n && n <= 0x0D) || n == 0x20 || n == 0x85 || n == 0xA0 || n == 0x1680 || (0x2000 <= n
        && n <= 0x200A) || n == 0x2028 || n == 0x2029 || n == 0x202F || n == 0x205F || n == 0x3000
}

/// Splits `s[lo..hi]` at each `sep` and returns the index range of every
/// field, in order.
pub fn split_spans(s: &[char], lo: usize, hi: usize, sep: char) -> (r: Vec<(usize, usize)>)
    requires
        lo <= hi <= s@.len(),
    ensures
        spans_within(r@, lo as int, hi as int),
        span_texts(s@, r@) == split(s@.subrange(lo as int, hi as int), sep),
{
    let mut out: Vec<(usize, usize)> = Vec::new();
    let mut start: usize = lo;
    let mut i: usize = lo;
    proof {
        assert(s@.subrange(lo as int, lo as int) =~= Seq::<char>::empty());
        assert(span_texts(s@, out@).push(Seq::<char>::empty()) =~= seq![Seq::<char>::empty()]);
    }
    while i < hi
        invariant
            lo <= start <= i <= hi <= s@.len(),
            spans_within(out@, lo as int, hi as int),
            span_texts(s@, out@).push(s@.subrange(start as int, i as int)) == split(
                s@.subrange(lo as int, i as int),
                sep,
            ),
        decreases hi - i,
    {
        let c = s[i];
        proof {
            let t = s@.subrange(lo as int, i + 1);
            assert(t.drop_last() =~= s@.subrange(lo as int, i as int));
            assert(t.last() == c);
            let head = split(t.drop_last(), sep);
            assert(head.drop_last() =~= span_texts(s@, out@));
            assert(head.last() == s@.subrange(start as int, i as int));
            assert(head.last().push(c) =~= s@.subrange(start as int, i + 1));
        }
        if c == sep {
            let ghost before = out@;
            out.push((start, i));
            start = i + 1;
            proof {
                assert(span_texts(s@, out@) =~= span_texts(s@, before).push(
                    s@.subrange(out@.last().0 as int, i as int),
                ));
                assert(s@.subrange(start as int, i + 1) =~= Seq::<char>::empty());
            }
        }
        i += 1;
    }
    let ghost before = out@;
    out.push((start, hi));
    proof {
        assert(span_texts(s@, out@) =~= span_texts(s@, before).push(
            s@.subrange(start as int, hi as int),
        ));
    }
    out
}

/// Narrows `lo..hi` to the range of `s[lo..hi]` that is left when the
/// surrounding whitespace is taken away.
pub fn trim_span(s: &[char], lo: usize, hi: usize) -> (r: (usize, usize))
    requires
        lo <= hi <= s@.len(),
    ensures
        lo <= r.0 <= r.1 <= hi,
        s@.subrange(r.0 as int, r.1 as int) == trim(s@.subrange(lo as int, hi as int)),
{
    let mut a: usize = lo;
    while a < hi && is_space_char(s[a])
        invariant
            lo <= a <= hi <= s@.len(),
            trim_start(s@.subrange(a as int, hi as int)) == trim_start(
                s@.subrange(lo as int, hi as int),
            ),
        decreases hi - a,
    {
        proof {
            let t = s@.subrange(a as int, hi as int);
            assert(t[0] == s@[a as int]);
            assert(t.drop_first() =~= s@.subrange(a + 1, hi as int));
        }
        a += 1;
    }
    proof {
        let t = s@.subrange(a as int, hi as int);
        if a < hi {
            assert(t[0] == s@[a as int]);
        }
        assert(trim_start(t) == t);
    }
    let mut b: usize = hi;
    while a < b && is_space_char(s[b - 1])
        invariant
            lo <= a <= b <= hi <= s@.len(),
            trim_end(s@.subrange(a as int, b as int)) == trim(s@.subrange(lo as int, hi as int)),
        decreases b - a,
    {
        proof {
            let t = s@.subrange(a as int, b as int);
            assert(t.last() == s@[b - 1]);
            assert(t.drop_last() =~= s@.subrange(a as int, b - 1));
        }
        b -= 1;
    }
    proof {
        let t = s@.subrange(a as int, b as int);
        if a < b {
            assert(t.last() == s@[b - 1]);
        }
        assert(trim_end(t) == t);
    }
    (a, b)
}

} // verus!
