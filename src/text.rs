use vstd::prelude::*;
use vstd::std_specs::iter::IteratorSpec;

verus! {

/// The sequence of ASCII digits of `d`, for `d < 10`.
pub open spec fn digit_char(d: nat) -> char {
    seq!['0', '1', '2', '3', '4', '5', '6', '7', '8', '9'][d as int]
}

/// The decimal rendering of `n`, without leading zeros.
pub open spec fn decimal(n: nat) -> Seq<char>
    decreases n,
{
    if n < 10 {
        seq![digit_char(n)]
    } else {
        decimal(n / 10).push(digit_char(n % 10))
    }
}

/// Every message followed by a newline, in order.
pub open spec fn terminated(msgs: Seq<Seq<char>>) -> Seq<char>
    decreases msgs.len(),
{
    if msgs.len() == 0 {
        Seq::empty()
    } else {
        terminated(msgs.drop_last()) + msgs.last() + seq!['\n']
    }
}

/// The messages separated by newlines.
pub open spec fn joined(msgs: Seq<Seq<char>>) -> Seq<char>
    decreases msgs.len(),
{
    if msgs.len() == 0 {
        Seq::empty()
    } else if msgs.len() == 1 {
        msgs[0]
    } else {
        joined(msgs.drop_last()) + seq!['\n'] + msgs.last()
    }
}

/// The characters of `s`, in order.
pub(crate) fn chars_of(s: &str) -> (r: Vec<char>)
    ensures
        r@ == s@,
{
    broadcast use vstd::string::group_string_axioms;

    let mut it = s.chars();
    let mut r: Vec<char> = Vec::new();
    loop
        invariant
            it.obeys_prophetic_iter_laws(),
            it.decrease() is Some,
            r@ + it.remaining() == s@,
        ensures
            r@ == s@,
        decreases it.decrease()->0,
    {
        match it.next() {
            Some(c) => {
                r.push(c);
            },
            None => {
                assert(r@ =~= s@);
                break;
            },
        }
    }
    r
}

/// Relies on `String::from_iter`: the text made of the characters of `v`, in order.
#[verifier::external_body]
pub(crate) fn text_of(v: &Vec<char>) -> (r: String)
    ensures
        r@ == v@,
{
    String::from_iter(v)
}

/// Appends the characters of `w` to `v`.
pub(crate) fn append(v: &mut Vec<char>, w: &Vec<char>)
    ensures
        final(v)@ == old(v)@ + w@,
{
    let mut i: usize = 0;
    while i < w.len()
        invariant
            i <= w.len(),
            v@ == old(v)@ + w@.subrange(0, i as int),
        decreases w.len() - i,
    {
        v.push(w[i]);
        i = i + 1;
        assert(w@.subrange(0, i as int) == w@.subrange(0, i - 1 as int).push(w@[i - 1]));
    }
    assert(w@.subrange(0, w.len() as int) == w@);
}

/// Appends the characters of `s` to `v`.
pub(crate) fn append_str(v: &mut Vec<char>, s: &str)
    ensures
        final(v)@ == old(v)@ + s@,
{
    let w = chars_of(s);
    append(v, &w);
}

/// The characters `s[lo..hi]`.
pub(crate) fn slice_chars(s: &Vec<char>, lo: usize, hi: usize) -> (r: Vec<char>)
    requires
        lo <= hi <= s.len(),
    ensures
        r@ == s@.subrange(lo as int, hi as int),
{
    let mut r: Vec<char> = Vec::new();
    let mut i: usize = lo;
    while i < hi
        invariant
            lo <= i <= hi <= s.len(),
            r@ == s@.subrange(lo as int, i as int),
        decreases hi - i,
    {
        r.push(s[i]);
        i = i + 1;
        assert(s@.subrange(lo as int, i as int) == s@.subrange(lo as int, i - 1 as int).push(s@[i - 1]));
    }
    r
}

/// Whether two character sequences are equal.
pub(crate) fn same_chars(a: &Vec<char>, b: &Vec<char>) -> (r: bool)
    ensures
        r == (a@ == b@),
{
    if a.len() != b.len() {
        return false;
    }
    let mut i: usize = 0;
    while i < a.len()
        invariant
            i <= a.len() == b.len(),
            forall|j: int| 0 <= j < i ==> a@[j] == b@[j],
        decreases a.len() - i,
    {
        if a[i] != b[i] {
            return false;
        }
        i = i + 1;
    }
    assert(a@ =~= b@);
    true
}

fn digit(d: u64) -> (c: char)
    requires
        d < 10,
    ensures
        c == digit_char(d as nat),
{
    let digits = ['0', '1', '2', '3', '4', '5', '6', '7', '8', '9'];
    assert(digits@ == seq!['0', '1', '2', '3', '4', '5', '6', '7', '8', '9']);
    digits[d as usize]
}

/// The decimal text of `n`.
pub fn decimal_text(n: u64) -> (r: Vec<char>)
    ensures
        r@ == decimal(n as nat),
    decreases n,
{
    if n < 10 {
        let mut r: Vec<char> = Vec::new();
        r.push(digit(n));
        r
    } else {
        let mut r = decimal_text(n / 10);
        r.push(digit(n % 10));
        r
    }
}

/// The messages, each followed by a newline, as one text.
pub(crate) fn terminate_all(msgs: &Vec<Vec<char>>) -> (r: Vec<char>)
    ensures
        r@ == terminated(msgs@.map_values(|m: Vec<char>| m@)),
{
    let ghost views = msgs@.map_values(|m: Vec<char>| m@);
    let mut r: Vec<char> = Vec::new();
    let mut i: usize = 0;
    while i < msgs.len()
        invariant
            i <= msgs.len(),
            views == msgs@.map_values(|m: Vec<char>| m@),
            r@ == terminated(views.subrange(0, i as int)),
        decreases msgs.len() - i,
    {
        append(&mut r, &msgs[i]);
        r.push('\n');
        i = i + 1;
        assert(views.subrange(0, i as int).drop_last() == views.subrange(0, i - 1 as int));
    }
    assert(views.subrange(0, msgs.len() as int) == views);
    r
}

/// The messages separated by newlines, as one text.
pub(crate) fn join_all(msgs: &Vec<Vec<char>>) -> (r: Vec<char>)
    ensures
        r@ == joined(msgs@.map_values(|m: Vec<char>| m@)),
{
    let ghost views = msgs@.map_values(|m: Vec<char>| m@);
    let mut r: Vec<char> = Vec::new();
    let mut i: usize = 0;
    while i < msgs.len()
        invariant
            i <= msgs.len(),
            views == msgs@.map_values(|m: Vec<char>| m@),
            r@ == joined(views.subrange(0, i as int)),
        decreases msgs.len() - i,
    {
        if i > 0 {
            r.push('\n');
        }
        append(&mut r, &msgs[i]);
        i = i + 1;
        assert(views.subrange(0, i as int).drop_last() == views.subrange(0, i - 1 as int));
    }
    assert(views.subrange(0, msgs.len() as int) == views);
    r
}

} // verus!
