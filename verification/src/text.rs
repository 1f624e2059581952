//! Character classes and string helpers shared by the modules: Unicode white
//! space, trimming, blank lines, and the ASCII letter tests.

use vstd::prelude::*;

verus! {

/// The Unicode `White_Space` property, the set of characters that
/// `char::is_whitespace` and `str::trim` treat as white space.
pub open spec fn is_white_space(c: char) -> bool {
    ||| ('\u{9}' <= c && c <= '\u{d}')
    ||| c == ' '
    ||| c == '\u{85}'
    ||| c == '\u{a0}'
    ||| c == '\u{1680}'
    ||| ('\u{2000}' <= c && c <= '\u{200a}')
    ||| c == '\u{2028}'
    ||| c == '\u{2029}'
    ||| c == '\u{202f}'
    ||| c == '\u{205f}'
    ||| c == '\u{3000}'
}

/// Whether `c` is white space in the sense of [`is_white_space`].
pub fn white_space(c: char) -> (r: bool)
    ensures
        r == is_white_space(c),
{
    ('\u{9}' <= c && c <= '\u{d}') || c == ' ' || c == '\u{85}' || c == '\u{a0}' || c == '\u{1680}'
        || ('\u{2000}' <= c && c <= '\u{200a}') || c == '\u{2028}' || c == '\u{2029}' || c
        == '\u{202f}' || c == '\u{205f}' || c == '\u{3000}'
}

/// `s` without its leading white space.
pub open spec fn trim_start(s: Seq<char>) -> Seq<char>
    decreases s.len(),
{
    if s.len() > 0 && is_white_space(s[0]) {
        trim_start(s.drop_first())
    } else {
        s
    }
}

/// `s` without its trailing white space.
pub open spec fn trim_end(s: Seq<char>) -> Seq<char>
    decreases s.len(),
{
    if s.len() > 0 && is_white_space(s.last()) {
        trim_end(s.drop_last())
    } else {
        s
    }
}

/// `s` without its leading and trailing white space, as `str::trim` gives it.
pub open spec fn trimmed(s: Seq<char>) -> Seq<char> {
    trim_end(trim_start(s))
}

/// Every character of `s` is white space.
pub open spec fn all_white_space(s: Seq<char>) -> bool {
    forall|i: int| 0 <= i < s.len() ==> #[trigger] is_white_space(s[i])
}

/// Where the leading white space of `s` stops, `trim_start` keeps the rest.
pub proof fn lemma_trim_start_at(s: Seq<char>, i: int)
    requires
        0 <= i <= s.len(),
        forall|k: int| 0 <= k < i ==> #[trigger] is_white_space(s[k]),
        i == s.len() || !is_white_space(s[i]),
    ensures
        trim_start(s) == s.skip(i),
    decreases i,
{
    if i == 0 {
        assert(s.skip(0) =~= s);
    } else {
        assert forall|k: int| 0 <= k < i - 1 implies #[trigger] is_white_space(
            s.drop_first()[k],
        ) by {
            assert(is_white_space(s[k + 1]));
        }
        lemma_trim_start_at(s.drop_first(), i - 1);
        assert(s.drop_first().skip(i - 1) =~= s.skip(i));
    }
}

/// Where the trailing white space of `s` starts, `trim_end` keeps what is before.
pub proof fn lemma_trim_end_at(s: Seq<char>, j: int)
    requires
        0 <= j <= s.len(),
        forall|k: int| j <= k < s.len() ==> #[trigger] is_white_space(s[k]),
        j == 0 || !is_white_space(s[j - 1]),
    ensures
        trim_end(s) == s.take(j),
    decreases s.len() - j,
{
    if j == s.len() {
        assert(s.take(j) =~= s);
    } else {
        assert(is_white_space(s[s.len() - 1]));
        assert forall|k: int| j <= k < s.drop_last().len() implies #[trigger] is_white_space(
            s.drop_last()[k],
        ) by {
            assert(is_white_space(s[k]));
        }
        lemma_trim_end_at(s.drop_last(), j);
        assert(s.drop_last().take(j) =~= s.take(j));
    }
}

/// The trimmed text is the part between the first and the last character that
/// is not white space.
pub proof fn lemma_trimmed_at(s: Seq<char>, start: int, end: int)
    requires
        0 <= start <= s.len(),
        0 <= end <= s.len(),
        forall|k: int| 0 <= k < start ==> #[trigger] is_white_space(s[k]),
        start == s.len() || !is_white_space(s[start]),
        forall|k: int| end <= k < s.len() ==> #[trigger] is_white_space(s[k]),
        end == 0 || !is_white_space(s[end - 1]),
    ensures
        start < end ==> trimmed(s) == s.subrange(start, end),
        start >= end ==> trimmed(s).len() == 0,
{
    lemma_trim_start_at(s, start);
    let t = s.skip(start);
    if start < end {
        assert forall|k: int| end - start <= k < t.len() implies #[trigger] is_white_space(t[k]) by {
            assert(is_white_space(s[k + start]));
        }
        lemma_trim_end_at(t, end - start);
        assert(t.take(end - start) =~= s.subrange(start, end));
    } else {
        if start < s.len() {
            assert(!is_white_space(s[start]));
            assert(false);
        }
        assert(t.len() == 0);
    }
}

/// A text is blank, `trimmed` to nothing, exactly when all of it is white space.
pub proof fn lemma_blank(s: Seq<char>)
    ensures
        trimmed(s).len() == 0 <==> all_white_space(s),
    decreases s.len(),
{
    if s.len() > 0 && is_white_space(s[0]) {
        lemma_blank(s.drop_first());
        if all_white_space(s) {
            assert(all_white_space(s.drop_first()));
        }
        if all_white_space(s.drop_first()) {
            assert forall|i: int| 0 <= i < s.len() implies #[trigger] is_white_space(s[i]) by {
                if i > 0 {
                    assert(is_white_space(s.drop_first()[i - 1]));
                }
            }
        }
    } else if s.len() > 0 {
        lemma_trim_end_nonempty(s);
        assert(!is_white_space(s[0]));
    }
}

proof fn lemma_trim_end_nonempty(s: Seq<char>)
    requires
        s.len() > 0,
        !is_white_space(s[0]),
    ensures
        trim_end(s).len() > 0,
    decreases s.len(),
{
    if is_white_space(s.last()) {
        lemma_trim_end_nonempty(s.drop_last());
    }
}

/// The part of `s` between the first and the last character that is not white
/// space (`str::trim`).
pub fn trim(s: &str) -> (r: &str)
    ensures
        r@ == trimmed(s@),
{
    broadcast use vstd::string::group_string_axioms;

    let mut start: usize = 0;
    let mut found = false;
    let mut end: usize = 0;
    let n = s.unicode_len();
    let mut i: usize = 0;
    for c in it: s.chars()
        invariant
            it.seq() == s@,
            n == s@.len(),
            i == it.index(),
            it.index() <= s@.len(),
            found ==> start < it.index() && !is_white_space(s@[start as int]),
            !found ==> start == it.index(),
            forall|k: int| 0 <= k < start ==> #[trigger] is_white_space(s@[k]),
            end <= it.index(),
            end == 0 || !is_white_space(s@[end - 1]),
            forall|k: int| end <= k < it.index() ==> #[trigger] is_white_space(s@[k]),
    {
        assert(c == s@[i as int]);
        if white_space(c) {
            if !found {
                start = start + 1;
            }
        } else {
            found = true;
            end = i + 1;
        }
        i = i + 1;
    }
    proof {
        lemma_trimmed_at(s@, start as int, end as int);
    }
    if start < end {
        s.substring_char(start, end)
    } else {
        proof {
            assert(trimmed(s@) =~= s@.subrange(0, 0));
        }
        s.substring_char(0, 0)
    }
}

/// Whether `s` trims to nothing.
pub fn is_blank(s: &str) -> (r: bool)
    ensures
        r == (trimmed(s@).len() == 0),
{
    broadcast use vstd::string::group_string_axioms;

    proof {
        lemma_blank(s@);
    }
    for c in it: s.chars()
        invariant
            it.seq() == s@,
            trimmed(s@).len() == 0 <==> all_white_space(s@),
            forall|k: int| 0 <= k < it.index() ==> #[trigger] is_white_space(s@[k]),
    {
        assert(c == s@[it.index() as int]);
        if !white_space(c) {
            assert(!is_white_space(s@[it.index() as int]));
            return false;
        }
    }
    true
}

/// Appends one character to a string (`String::push`).
#[verifier::external_body]
pub(crate) fn push_char(s: &mut String, c: char)
    ensures
        final(s)@ == old(s)@.push(c),
{
    s.push(c);
}

/// White space before a text does not change where its trimmed part starts.
pub proof fn lemma_trim_start_after_space(w: Seq<char>, x: Seq<char>)
    requires
        all_white_space(w),
    ensures
        trim_start(w + x) == trim_start(x),
    decreases w.len(),
{
    if w.len() > 0 {
        assert(is_white_space(w[0]));
        assert((w + x)[0] == w[0]);
        assert((w + x).drop_first() =~= w.drop_first() + x);
        assert(all_white_space(w.drop_first())) by {
            assert forall|i: int| 0 <= i < w.drop_first().len() implies #[trigger] is_white_space(
                w.drop_first()[i],
            ) by {
                assert(is_white_space(w[i + 1]));
            }
        }
        lemma_trim_start_after_space(w.drop_first(), x);
    } else {
        assert(w + x =~= x);
    }
}

/// White space after a text does not change where its trimmed part ends.
pub proof fn lemma_trim_end_before_space(x: Seq<char>, w: Seq<char>)
    requires
        all_white_space(w),
    ensures
        trim_end(x + w) == trim_end(x),
    decreases w.len(),
{
    if w.len() > 0 {
        assert(is_white_space(w[w.len() - 1]));
        assert((x + w).last() == w.last());
        assert((x + w).drop_last() =~= x + w.drop_last());
        assert(all_white_space(w.drop_last())) by {
            assert forall|i: int| 0 <= i < w.drop_last().len() implies #[trigger] is_white_space(
                w.drop_last()[i],
            ) by {
                assert(is_white_space(w[i]));
            }
        }
        lemma_trim_end_before_space(x, w.drop_last());
    } else {
        assert(x + w =~= x);
    }
}

proof fn lemma_trim_start_keeps_tail(x: Seq<char>, w: Seq<char>)
    requires
        !all_white_space(x),
    ensures
        trim_start(x + w) == trim_start(x) + w,
    decreases x.len(),
{
    assert(x.len() > 0);
    assert((x + w)[0] == x[0]);
    if is_white_space(x[0]) {
        assert((x + w).drop_first() =~= x.drop_first() + w);
        assert(!all_white_space(x.drop_first())) by {
            let i = choose|i: int| 0 <= i < x.len() && !is_white_space(#[trigger] x[i]);
            assert(i > 0);
            assert(!is_white_space(x.drop_first()[i - 1]));
        }
        lemma_trim_start_keeps_tail(x.drop_first(), w);
    }
}

/// White space around a text does not change its trimmed part.
pub proof fn lemma_trimmed_padding(w1: Seq<char>, s: Seq<char>, w2: Seq<char>)
    requires
        all_white_space(w1),
        all_white_space(w2),
    ensures
        trimmed(w1 + s + w2) == trimmed(s),
{
    assert(w1 + s + w2 =~= w1 + (s + w2));
    lemma_trim_start_after_space(w1, s + w2);
    if all_white_space(s) {
        assert(all_white_space(s + w2)) by {
            assert forall|i: int| 0 <= i < (s + w2).len() implies #[trigger] is_white_space(
                (s + w2)[i],
            ) by {
                if i < s.len() {
                    assert(is_white_space(s[i]));
                } else {
                    assert(is_white_space(w2[i - s.len()]));
                }
            }
        }
        lemma_blank(s + w2);
        lemma_blank(s);
        assert(trimmed(s + w2) =~= trimmed(s));
    } else {
        lemma_trim_start_keeps_tail(s, w2);
        lemma_trim_end_before_space(trim_start(s), w2);
    }
}

/// White space is the Unicode `White_Space` set: the code points 9 to 13,
/// 32, 133, 160, 5760, 8192 to 8202, 8232, 8233, 8239, 8287 and 12288.
pub proof fn lemma_white_space_code_points(c: char)
    ensures
        is_white_space(c) <==> {
            let v = c as u32;
            ||| 9 <= v <= 13
            ||| v == 32
            ||| v == 133
            ||| v == 160
            ||| v == 5760
            ||| 8192 <= v <= 8202
            ||| v == 8232
            ||| v == 8233
            ||| v == 8239
            ||| v == 8287
            ||| v == 12288
        },
{
}

} // verus!
