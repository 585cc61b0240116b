//! Whitespace and trimming on sequences of characters.

use vstd::prelude::*;

verus! {

/// The characters that Unicode marks as `White_Space`.
pub open spec fn is_whitespace(c: char) -> bool {
    let u = c as u32;
    ||| 0x09 <= u <= 0x0D
    ||| u == 0x20
    ||| u == 0x85
    ||| u == 0xA0
    ||| u == 0x1680
    ||| 0x2000 <= u <= 0x200A
    ||| u == 0x2028
    ||| u == 0x2029
    ||| u == 0x202F
    ||| u == 0x205F
    ||| u == 0x3000
}

/// A line is blank when it holds nothing but whitespace.
pub open spec fn is_blank(s: Seq<char>) -> bool {
    forall|i: int| 0 <= i < s.len() ==> is_whitespace(#[trigger] s[i])
}

/// `s` without its leading whitespace.
pub open spec fn trim_start(s: Seq<char>) -> Seq<char>
    decreases s.len(),
{
    if s.len() > 0 && is_whitespace(s.first()) {
        trim_start(s.drop_first())
    } else {
        s
    }
}

/// `s` without its trailing whitespace.
pub open spec fn trim_end(s: Seq<char>) -> Seq<char>
    decreases s.len(),
{
    if s.len() > 0 && is_whitespace(s.last()) {
        trim_end(s.drop_last())
    } else {
        s
    }
}

/// `s` without its leading and trailing whitespace.
pub open spec fn trimmed(s: Seq<char>) -> Seq<char> {
    trim_end(trim_start(s))
}

/// `trim_start` cuts a prefix of whitespace and stops at the first other character.
pub proof fn lemma_trim_start(s: Seq<char>)
    ensures
        trim_start(s).len() <= s.len(),
        trim_start(s) == s.skip(s.len() - trim_start(s).len()),
        is_blank(s.take(s.len() - trim_start(s).len())),
        trim_start(s).len() > 0 ==> !is_whitespace(trim_start(s).first()),
    decreases s.len(),
{
    if s.len() > 0 && is_whitespace(s.first()) {
        let rest = s.drop_first();
        lemma_trim_start(rest);
        let k = rest.len() - trim_start(rest).len();
        assert forall|i: int| 0 <= i < k + 1 implies is_whitespace(#[trigger] s.take(k + 1)[i]) by {
            if i > 0 {
                assert(s.take(k + 1)[i] == rest.take(k)[i - 1]);
            }
        }
    }
}

/// `trim_end` cuts a suffix of whitespace and stops at the last other character.
pub proof fn lemma_trim_end(s: Seq<char>)
    ensures
        trim_end(s).len() <= s.len(),
        trim_end(s) == s.take(trim_end(s).len() as int),
        is_blank(s.skip(trim_end(s).len() as int)),
        trim_end(s).len() > 0 ==> !is_whitespace(trim_end(s).last()),
    decreases s.len(),
{
    if s.len() > 0 && is_whitespace(s.last()) {
        let rest = s.drop_last();
        lemma_trim_end(rest);
        let k = trim_end(rest).len() as int;
        assert forall|i: int| 0 <= i < s.len() - k implies is_whitespace(
            #[trigger] s.skip(k)[i],
        ) by {
            if i < rest.len() - k {
                assert(s.skip(k)[i] == rest.skip(k)[i]);
            }
        }
    }
}

/// Trimming keeps exactly the characters from the first one that is no
/// whitespace to the last one that is none: `first` and `last` are their
/// positions in `s`.
pub proof fn lemma_trimmed_between(s: Seq<char>, first: int, last: int)
    requires
        0 <= first <= last < s.len(),
        !is_whitespace(s[first]),
        !is_whitespace(s[last]),
        forall|i: int| 0 <= i < first ==> is_whitespace(#[trigger] s[i]),
        forall|i: int| last < i < s.len() ==> is_whitespace(#[trigger] s[i]),
    ensures
        trimmed(s) == s.subrange(first, last + 1),
{
    lemma_trim_start(s);
    let t = trim_start(s);
    let k = s.len() - t.len();
    if k > first {
        assert(s.take(k)[first] == s[first]);
    }
    assert(k == first);
    lemma_trim_end(t);
    let m = trim_end(t).len() as int;
    if m < last - first + 1 {
        assert(t.skip(m)[last - first - m] == s[last]);
    }
    assert(m == last - first + 1);
}

/// A blank line trims to nothing, and only a blank line does.
pub proof fn lemma_trimmed_blank(s: Seq<char>)
    ensures
        is_blank(s) <==> trimmed(s).len() == 0,
{
    lemma_trim_start(s);
    let t = trim_start(s);
    let k = s.len() - t.len();
    lemma_trim_end(t);
    let m = trim_end(t).len() as int;
    if m == 0 {
        assert forall|i: int| 0 <= i < s.len() implies is_whitespace(#[trigger] s[i]) by {
            if i < k {
                assert(s.take(k)[i] == s[i]);
            } else {
                assert(t.skip(0)[i - k] == s[i]);
            }
        }
    }
}

/// Whether `c` is whitespace.
pub fn whitespace(c: char) -> (b: bool)
    ensures
        b == is_whitespace(c),
{
    let u: u32 = c as u32;
    (0x09 <= u && u <= 0x0D) || u == 0x20 || u == 0x85 || u == 0xA0 || u == 0x1680 || (0x2000 <= u
        && u <= 0x200A) || u == 0x2028 || u == 0x2029 || u == 0x202F || u == 0x205F || u == 0x3000
}

/// The number of characters that `line` keeps when it is trimmed.
pub fn trimmed_len(line: &str) -> (n: usize)
    ensures
        n == trimmed(line@).len(),
{
    let len: usize = line.unicode_len();
    let mut first: Option<usize> = None;
    let mut last: usize = 0;
    let mut i: usize = 0;
    for c in it: line.chars()
        invariant
            it.seq() == line@,
            len == line@.len(),
            i == it.index(),
            first is None ==> is_blank(line@.take(i as int)),
            first matches Some(f) ==> {
                &&& f <= last < i
                &&& !is_whitespace(line@[f as int])
                &&& !is_whitespace(line@[last as int])
                &&& forall|k: int| 0 <= k < f ==> is_whitespace(#[trigger] line@[k])
                &&& forall|k: int| last < k < i ==> is_whitespace(#[trigger] line@[k])
            },
    {
        if !whitespace(c) {
            if first.is_none() {
                assert forall|k: int| 0 <= k < i implies is_whitespace(#[trigger] line@[k]) by {
                    assert(line@.take(i as int)[k] == line@[k]);
                }
                first = Some(i);
            }
            last = i;
        } else if first.is_none() {
            assert forall|k: int| 0 <= k < i + 1 implies is_whitespace(
                #[trigger] line@.take(i + 1)[k],
            ) by {
                if k < i {
                    assert(line@.take(i as int)[k] == line@[k]);
                }
            }
        }
        i = i + 1;
    }
    match first {
        None => {
            proof {
                assert(line@.take(i as int) == line@);
                lemma_trimmed_blank(line@);
            }
            0
        },
        Some(f) => {
            proof {
                lemma_trimmed_between(line@, f as int, last as int);
            }
            last - f + 1
        },
    }
}

} // verus!
