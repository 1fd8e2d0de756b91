//! Text rules of the engine: classifying a file name as a note and
//! sanitizing a title into a safe markdown file name.
use vstd::prelude::*;

use crate::ext::char_is_alphanumeric;
use crate::ext::is_alnum;
use crate::ext::push_char;
use vstd::string::StrSliceExecFns;
use vstd::string::StringExecFns;

verus! {

/// A character that survives title sanitization: alphanumeric or a space.
pub open spec fn keep_char(c: char) -> bool {
    is_alnum(c) || c == ' '
}

/// The subsequence of characters that survive sanitization.
pub open spec fn keep_alnum(s: Seq<char>) -> Seq<char>
    decreases s.len(),
{
    if s.len() == 0 {
        Seq::empty()
    } else if keep_char(s.last()) {
        keep_alnum(s.drop_last()).push(s.last())
    } else {
        keep_alnum(s.drop_last())
    }
}

/// The text with its leading spaces removed.
pub open spec fn trim_start(s: Seq<char>) -> Seq<char>
    decreases s.len(),
{
    if s.len() > 0 && s[0] == ' ' {
        trim_start(s.drop_first())
    } else {
        s
    }
}

/// The text with its trailing spaces removed.
pub open spec fn trim_end(s: Seq<char>) -> Seq<char>
    decreases s.len(),
{
    if s.len() > 0 && s.last() == ' ' {
        trim_end(s.drop_last())
    } else {
        s
    }
}

/// The text with spaces removed from both ends.
pub open spec fn trim_spaces(s: Seq<char>) -> Seq<char> {
    trim_end(trim_start(s))
}

/// The file name a note gets from its title: the sanitized, trimmed
/// title with the markdown suffix appended.
pub open spec fn safe_file_name(title: Seq<char>) -> Seq<char> {
    trim_spaces(keep_alnum(title)) + ".md"@
}

/// Whether a file name classifies its entry as a note: it ends in the
/// case-sensitive suffix `.md`.
pub open spec fn is_note_name(name: Seq<char>) -> bool {
    name.len() >= 3 && name.subrange(name.len() - 3, name.len() as int) == ".md"@
}

/// Decides whether a scanned file name is a note.
pub fn is_note_file(name: &str) -> (b: bool)
    ensures
        b == is_note_name(name@),
{
    let n = name.unicode_len();
    if n < 3 {
        return false;
    }
    let b = name.get_char(n - 3) == '.' && name.get_char(n - 2) == 'm' && name.get_char(n - 1)
        == 'd';
    proof {
        reveal_strlit(".md");
        let s = name@.subrange(name@.len() - 3, name@.len() as int);
        if b {
            assert(s =~= ".md"@);
        } else {
            if s == ".md"@ {
                assert(name@[name@.len() - 3] == s[0]);
                assert(name@[name@.len() - 2] == s[1]);
                assert(name@[name@.len() - 1] == s[2]);
            }
        }
    }
    b
}

/// Sanitizes a title into a markdown file name: keeps alphanumeric
/// characters and spaces, trims spaces from both ends, appends `.md`.
pub fn sanitize_file_name(title: &str) -> (r: String)
    ensures
        r@ == safe_file_name(title@),
{
    let n = title.unicode_len();
    let mut buf = String::new();
    let mut i: usize = 0;
    while i < n
        invariant
            n == title@.len(),
            i <= n,
            buf@ == keep_alnum(title@.subrange(0, i as int)),
        decreases n - i,
    {
        let c = title.get_char(i);
        proof {
            assert(title@.subrange(0, i + 1).drop_last() =~= title@.subrange(0, i as int));
            assert(title@.subrange(0, i + 1).last() == c);
        }
        if char_is_alphanumeric(c) || c == ' ' {
            push_char(&mut buf, c);
        }
        i += 1;
    }
    proof {
        assert(title@.subrange(0, n as int) =~= title@);
    }
    let m = buf.as_str().unicode_len();
    proof {
        assert(buf@.subrange(0, m as int) =~= buf@);
    }
    let mut lo: usize = 0;
    while lo < m && buf.as_str().get_char(lo) == ' '
        invariant
            m == buf@.len(),
            lo <= m,
            trim_start(buf@.subrange(lo as int, m as int)) == trim_start(buf@),
        decreases m - lo,
    {
        proof {
            assert(buf@.subrange(lo as int, m as int).drop_first() =~= buf@.subrange(
                lo + 1,
                m as int,
            ));
        }
        lo += 1;
    }
    let mut hi: usize = m;
    while hi > lo && buf.as_str().get_char(hi - 1) == ' '
        invariant
            m == buf@.len(),
            lo <= hi <= m,
            trim_start(buf@.subrange(lo as int, m as int)) == trim_start(buf@),
            lo < m ==> buf@[lo as int] != ' ',
            trim_end(buf@.subrange(lo as int, hi as int)) == trim_end(
                buf@.subrange(lo as int, m as int),
            ),
        decreases hi,
    {
        proof {
            assert(buf@.subrange(lo as int, hi as int).drop_last() =~= buf@.subrange(
                lo as int,
                hi - 1,
            ));
        }
        hi -= 1;
    }
    proof {
        let t = buf@.subrange(lo as int, m as int);
        if lo < m {
            assert(t[0] != ' ');
        }
        assert(trim_start(t) == t);
        let u = buf@.subrange(lo as int, hi as int);
        if u.len() > 0 {
            assert(u.last() == buf@[hi - 1]);
        }
        assert(trim_end(u) == u);
        assert(trim_spaces(buf@) == u);
    }
    let mut r = buf.as_str().substring_char(lo, hi).to_owned();
    r.append(".md");
    r
}

} // verus!
