//! Splitting and joining character sequences, and the facts that relate the two.
use vstd::prelude::*;

verus! {

broadcast use vstd::string::group_string_axioms;

/// The pieces of `s` between occurrences of `sep`; there is always at least one piece.
pub open spec fn split(s: Seq<char>, sep: char) -> Seq<Seq<char>>
    decreases s.len(),
{
    if s.len() == 0 {
        seq![Seq::<char>::empty()]
    } else {
        let prev = split(s.drop_last(), sep);
        if s.last() == sep {
            prev.push(Seq::<char>::empty())
        } else {
            prev.update(prev.len() - 1, prev.last().push(s.last()))
        }
    }
}

/// The parts, in order, with `sep` between each two of them.
pub open spec fn join(parts: Seq<Seq<char>>, sep: Seq<char>) -> Seq<char>
    decreases parts.len(),
{
    if parts.len() == 0 {
        Seq::<char>::empty()
    } else if parts.len() == 1 {
        parts[0]
    } else {
        join(parts.drop_last(), sep) + sep + parts.last()
    }
}

pub open spec fn free_of(s: Seq<char>, c: char) -> bool {
    forall|i: int| 0 <= i < s.len() ==> #[trigger] s[i] != c
}

pub open spec fn all_free_of(parts: Seq<Seq<char>>, c: char) -> bool {
    forall|i: int| 0 <= i < parts.len() ==> free_of(#[trigger] parts[i], c)
}

pub proof fn lemma_split_len(s: Seq<char>, sep: char)
    ensures
        split(s, sep).len() >= 1,
    decreases s.len(),
{
    if s.len() > 0 {
        lemma_split_len(s.drop_last(), sep);
    }
}

/// Characters other than the separator extend the last piece.
pub proof fn lemma_split_append_plain(a: Seq<char>, y: Seq<char>, sep: char)
    requires
        free_of(y, sep),
    ensures
        split(a + y, sep) == split(a, sep).update(
            split(a, sep).len() - 1,
            split(a, sep).last() + y,
        ),
    decreases y.len(),
{
    lemma_split_len(a, sep);
    let pa = split(a, sep);
    if y.len() == 0 {
        assert(a + y =~= a);
        assert(pa.last() + y =~= pa.last());
        assert(pa.update(pa.len() - 1, pa.last()) =~= pa);
    } else {
        let y0 = y.drop_last();
        assert(free_of(y0, sep));
        lemma_split_append_plain(a, y0, sep);
        assert((a + y).drop_last() =~= a + y0);
        assert((a + y).last() == y.last());
        let prev = split(a + y0, sep);
        assert(prev.last() == pa.last() + y0);
        assert(prev.last().push(y.last()) =~= pa.last() + y);
        assert(split(a + y, sep) =~= pa.update(pa.len() - 1, pa.last() + y));
    }
}

/// A separator starts a new, empty piece.
pub proof fn lemma_split_append_sep(a: Seq<char>, sep: char)
    ensures
        split(a.push(sep), sep) == split(a, sep).push(Seq::<char>::empty()),
{
    assert(a.push(sep).drop_last() =~= a);
}

/// Splitting at a separator splits the two sides independently.
pub proof fn lemma_split_concat(a: Seq<char>, b: Seq<char>, sep: char)
    ensures
        split(a.push(sep) + b, sep) == split(a, sep) + split(b, sep),
    decreases b.len(),
{
    lemma_split_append_sep(a, sep);
    if b.len() == 0 {
        assert(a.push(sep) + b =~= a.push(sep));
        assert(split(a, sep).push(Seq::<char>::empty()) =~= split(a, sep) + split(b, sep));
    } else {
        let b0 = b.drop_last();
        lemma_split_concat(a, b0, sep);
        lemma_split_len(b0, sep);
        assert((a.push(sep) + b).drop_last() =~= a.push(sep) + b0);
        assert((a.push(sep) + b).last() == b.last());
        assert(split(a.push(sep) + b, sep) =~= split(a, sep) + split(b, sep));
    }
}

/// Splitting a joined text gives back its parts, each after the first preceded by `pad`,
/// when neither the parts nor `pad` hold the separator.
pub proof fn lemma_split_join(parts: Seq<Seq<char>>, pad: Seq<char>, sep: char)
    requires
        parts.len() >= 1,
        all_free_of(parts, sep),
        free_of(pad, sep),
    ensures
        split(join(parts, seq![sep] + pad), sep) == Seq::new(
            parts.len(),
            |i: int|
                if i == 0 {
                    parts[0]
                } else {
                    pad + parts[i]
                },
        ),
    decreases parts.len(),
{
    let sp = seq![sep] + pad;
    let expected = Seq::new(
        parts.len(),
        |i: int|
            if i == 0 {
                parts[0]
            } else {
                pad + parts[i]
            },
    );
    if parts.len() == 1 {
        assert(free_of(parts[0], sep));
        lemma_split_append_plain(Seq::<char>::empty(), parts[0], sep);
        assert(Seq::<char>::empty() + parts[0] =~= parts[0]);
        assert(split(join(parts, sp), sep) =~= expected);
    } else {
        let init = parts.drop_last();
        let last = parts.last();
        assert(all_free_of(init, sep)) by {
            assert forall|i: int| 0 <= i < init.len() implies free_of(#[trigger] init[i], sep) by {
                assert(init[i] == parts[i]);
            }
        }
        assert(free_of(last, sep)) by {
            assert(last == parts[parts.len() - 1]);
        }
        lemma_split_join(init, pad, sep);
        let head = join(init, sp);
        assert(join(parts, sp) =~= head.push(sep) + (pad + last));
        assert(free_of(pad + last, sep)) by {
            assert forall|i: int| 0 <= i < (pad + last).len() implies #[trigger] (pad + last)[i]
                != sep by {
                if i < pad.len() {
                    assert((pad + last)[i] == pad[i]);
                } else {
                    assert((pad + last)[i] == last[i - pad.len()]);
                }
            }
        }
        lemma_split_append_plain(head.push(sep), pad + last, sep);
        lemma_split_append_sep(head, sep);
        assert(Seq::<char>::empty() + (pad + last) =~= pad + last);
        assert(split(join(parts, sp), sep) =~= expected);
    }
}

/// The joined text ends with the last part.
pub proof fn lemma_join_len(parts: Seq<Seq<char>>, sep: Seq<char>)
    requires
        parts.len() >= 1,
    ensures
        join(parts, sep).len() >= parts.last().len(),
{
}

/// The characters of `s`, in order.
pub fn chars_of(s: &str) -> (r: Vec<char>)
    ensures
        r@ == s@,
{
    let mut r: Vec<char> = Vec::new();
    for c in it: s.chars()
        invariant
            r@ == it.seq().take(it.index() as int),
            it.seq() == s@,
    {
        r.push(c);
        assert(r@ =~= it.seq().take(it.index() as int + 1));
    }
    assert(r@ =~= s@);
    r
}

/// Whether `chars[lo..hi]` spells `name`.
pub(crate) fn spells(chars: &Vec<char>, lo: usize, hi: usize, name: &str) -> (b: bool)
    requires
        lo <= hi <= chars@.len(),
    ensures
        b == (chars@.subrange(lo as int, hi as int) == name@),
{
    let n = name.unicode_len();
    if n != hi - lo {
        return false;
    }
    let mut k: usize = 0;
    while k < n
        invariant
            n == name@.len(),
            n == hi - lo,
            lo <= hi <= chars@.len(),
            0 <= k <= n,
            forall|j: int| 0 <= j < k ==> chars@[lo + j] == name@[j],
        decreases n - k,
    {
        if chars[lo + k] != name.get_char(k) {
            assert(chars@.subrange(lo as int, hi as int)[k as int] != name@[k as int]);
            return false;
        }
        k = k + 1;
    }
    assert(chars@.subrange(lo as int, hi as int) =~= name@);
    true
}

} // verus!
