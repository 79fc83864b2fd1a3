//! Character-level helpers on strings: splitting on a separator and
//! comparing, each stated over the string's sequence of characters.
use vstd::prelude::*;
use vstd::std_specs::iter::IteratorSpec;
use vstd::string::*;

verus! {

broadcast use vstd::string::group_string_axioms;

/// The pieces of `s` between occurrences of `sep`, found from left to right
/// without overlap, where the current piece started at position 0 and no
/// occurrence starts before position `i`.
pub open spec fn split_from(s: Seq<char>, sep: Seq<char>, i: int) -> Seq<Seq<char>>
    decreases s.len(), s.len() - i,
{
    if sep.len() == 0 || i < 0 || i + sep.len() > s.len() {
        seq![s]
    } else if s.subrange(i, i + sep.len()) == sep {
        seq![s.subrange(0, i)] + split_from(s.subrange(i + sep.len(), s.len() as int), sep, 0)
    } else {
        split_from(s, sep, i + 1)
    }
}

/// The pieces of `s` separated by `sep`, as `str::split` gives them.
pub open spec fn split(s: Seq<char>, sep: Seq<char>) -> Seq<Seq<char>> {
    split_from(s, sep, 0)
}

/// The character sequences of a sequence of strings.
pub open spec fn views(v: Seq<String>) -> Seq<Seq<char>> {
    v.map_values(|x: String| x@)
}

/// The characters of `s`, in order.
pub fn chars_of(s: &str) -> (r: Vec<char>)
    ensures
        r@ == s@,
{
    let mut it = s.chars();
    let mut out: Vec<char> = Vec::new();
    loop
        invariant
            out@ + it.remaining() == s@,
            it.decrease() is Some,
        decreases it.decrease()->0,
    {
        let ghost before = it.remaining();
        match it.next() {
            Some(c) => {
                proof {
                    assert(out@.push(c) + it.remaining() =~= out@ + before);
                }
                out.push(c);
            },
            None => {
                return out;
            },
        }
    }
}

/// Whether `sep` occurs in `s` at position `i`.
fn occurs_at(s: &Vec<char>, sep: &Vec<char>, i: usize) -> (r: bool)
    requires
        i + sep@.len() <= s@.len(),
    ensures
        r == (s@.subrange(i as int, i + sep@.len()) == sep@),
{
    let n = s.len();
    let mut j: usize = 0;
    while j < sep.len()
        invariant
            n == s@.len(),
            j <= sep@.len(),
            i + sep@.len() <= s@.len(),
            forall|k: int| 0 <= k < j ==> s@[i + k] == sep@[k],
        decreases sep@.len() - j,
    {
        if s[i + j] != sep[j] {
            assert(s@.subrange(i as int, i + sep@.len())[j as int] != sep@[j as int]);
            return false;
        }
        j = j + 1;
    }
    assert(s@.subrange(i as int, i + sep@.len()) =~= sep@);
    true
}

/// Splits `s` on every occurrence of `sep`, as `str::split` does.
pub fn split_by(s: &str, sep: &str) -> (r: Vec<String>)
    requires
        sep@.len() > 0,
    ensures
        views(r@) == split(s@, sep@),
{
    let cs = chars_of(s);
    let sc = chars_of(sep);
    let n = cs.len();
    let k = sc.len();
    let mut out: Vec<String> = Vec::new();
    let mut start: usize = 0;
    let mut i: usize = 0;
    assert(s@.subrange(0, n as int) =~= s@);
    assert(views(out@) =~= Seq::<Seq<char>>::empty());
    while k <= n - i
        invariant
            cs@ == s@,
            sc@ == sep@,
            n == s@.len(),
            k == sep@.len(),
            k > 0,
            start <= i <= n,
            views(out@) + split_from(s@.subrange(start as int, n as int), sep@, i - start) == split(s@, sep@),
        decreases n - i,
    {
        let ghost rest = s@.subrange(start as int, n as int);
        assert(rest.subrange(i - start, i - start + k) =~= s@.subrange(i as int, i + k));
        if occurs_at(&cs, &sc, i) {
            let piece = s.substring_char(start, i).to_owned();
            proof {
                assert(rest.subrange(0, i - start) =~= s@.subrange(start as int, i as int));
                assert(rest.subrange(i - start + k, rest.len() as int) =~= s@.subrange(i + k, n as int));
                assert(views(out@.push(piece)) =~= views(out@).push(piece@));
                assert(views(out@).push(piece@) + split_from(s@.subrange(i + k, n as int), sep@, 0)
                    =~= views(out@) + split_from(rest, sep@, i - start));
            }
            out.push(piece);
            start = i + k;
            i = i + k;
        } else {
            i = i + 1;
        }
    }
    let last = s.substring_char(start, n).to_owned();
    proof {
        assert(views(out@.push(last)) =~= views(out@) + split_from(s@.subrange(start as int, n as int), sep@, i - start));
    }
    out.push(last);
    out
}

/// Whether two strings hold the same characters.
pub fn same_text(a: &str, b: &str) -> (r: bool)
    ensures
        r == (a@ == b@),
{
    let x: String = a.to_owned();
    let y: String = b.to_owned();
    x.eq(&y)
}

} // verus!
