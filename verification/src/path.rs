//! The parts of a `/`-separated path that the indexers use: the file name,
//! its stem before the first dot and its extension after the last dot.
use vstd::prelude::*;
use crate::text::{slice_chars, chars_equal, chars_of};

verus! {

/// The position of the last `c` in `s`.
pub open spec fn rfind_char(s: Seq<char>, c: char) -> Option<int>
    decreases s.len(),
{
    if s.len() == 0 {
        None
    } else if s.last() == c {
        Some(s.len() - 1)
    } else {
        rfind_char(s.drop_last(), c)
    }
}

pub proof fn lemma_rfind_char(s: Seq<char>, c: char)
    ensures
        match rfind_char(s, c) {
            Some(i) => 0 <= i < s.len() && s[i] == c && forall|j: int| i < j < s.len() ==> s[j] != c,
            None => forall|j: int| 0 <= j < s.len() ==> s[j] != c,
        },
    decreases s.len(),
{
    if s.len() > 0 && s.last() != c {
        lemma_rfind_char(s.drop_last(), c);
        assert forall|j: int| 0 <= j < s.len() - 1 implies s.drop_last()[j] == s[j] by {}
    }
}

/// The position of the last `c` in `s`.
pub fn rfind_char_pos(s: &[char], c: char) -> (r: Option<usize>)
    ensures
        r matches Some(i) ==> rfind_char(s@, c) == Some(i as int),
        r is None ==> rfind_char(s@, c) is None,
{
    let mut k = s.len();
    assert(s@.take(k as int) =~= s@);
    while k > 0
        invariant
            k <= s@.len(),
            rfind_char(s@, c) == rfind_char(s@.take(k as int), c),
        decreases k,
    {
        assert(s@.take(k as int).drop_last() =~= s@.take(k - 1));
        if s[k - 1] == c {
            return Some(k - 1);
        }
        k = k - 1;
    }
    None
}

/// The start of the last `/`-separated segment of `s`.
pub open spec fn segment_start(s: Seq<char>) -> int {
    match rfind_char(s, '/') {
        Some(i) => i + 1,
        None => 0,
    }
}

/// The last normal component of the path `s` (`Path::file_name`): trailing
/// separators and `.` components are skipped; a final `..`, a bare root or an
/// empty path have none.
pub open spec fn file_name(s: Seq<char>) -> Option<Seq<char>>
    decreases s.len(),
{
    if s.len() == 0 {
        None
    } else {
        let start = segment_start(s);
        let seg = s.subrange(start, s.len() as int);
        if seg.len() == 0 || seg == seq!['.'] {
            if start <= 0 || start > s.len() {
                None
            } else {
                file_name(s.subrange(0, start - 1))
            }
        } else if seg == seq!['.', '.'] {
            None
        } else {
            Some(seg)
        }
    }
}

proof fn lemma_segment_start(s: Seq<char>)
    ensures
        0 <= segment_start(s) <= s.len(),
        segment_start(s) > 0 ==> s[segment_start(s) - 1] == '/',
{
    lemma_rfind_char(s, '/');
}

/// The file name of a path is its last `/`-separated part: for any
/// directory part and a name without `/` that is neither empty, `.` nor
/// `..`, the file name of `dir/name` is `name`, and so is that of `name`.
pub proof fn lemma_file_name_last_part(dir: Seq<char>, name: Seq<char>)
    requires
        name.len() > 0,
        !name.contains('/'),
        name != seq!['.'],
        name != seq!['.', '.'],
    ensures
        file_name(dir + seq!['/'] + name) == Some(name),
        file_name(name) == Some(name),
{
    let s = dir + seq!['/'] + name;
    lemma_rfind_char(s, '/');
    let d = dir.len() as int;
    assert(s[d] == '/');
    match rfind_char(s, '/') {
        Some(i) => {
            if i > d {
                assert(s[i] == name[i - d - 1]);
                assert(name.contains('/'));
            }
        },
        None => {},
    }
    assert(s.subrange(d + 1, s.len() as int) =~= name);
    lemma_rfind_char(name, '/');
    match rfind_char(name, '/') {
        Some(i) => {
            assert(name.contains('/'));
        },
        None => {},
    }
    assert(name.subrange(0, name.len() as int) =~= name);
}

/// The last normal component of `path`.
pub fn file_name_of(path: &[char]) -> (r: Option<Vec<char>>)
    ensures
        match r {
            Some(v) => file_name(path@) == Some(v@),
            None => file_name(path@) is None,
        },
{
    let mut end = path.len();
    let dot = chars_of(".");
    let dotdot = chars_of("..");
    proof {
        reveal_strlit(".");
        reveal_strlit("..");
        assert(path@.take(end as int) =~= path@);
    }
    while end > 0
        invariant
            end <= path@.len(),
            dot@ == seq!['.'],
            dotdot@ == seq!['.', '.'],
            file_name(path@) == file_name(path@.take(end as int)),
        decreases end,
    {
        let prefix = slice_chars(path, 0, end);
        proof {
            assert(prefix@ =~= path@.take(end as int));
            lemma_segment_start(prefix@);
        }
        let start = match rfind_char_pos(prefix.as_slice(), '/') {
            Some(i) => i + 1,
            None => 0,
        };
        let seg = slice_chars(path, start, end);
        assert(seg@ =~= prefix@.subrange(start as int, prefix@.len() as int));
        if seg.len() == 0 || chars_equal(seg.as_slice(), dot.as_slice()) {
            if start == 0 {
                return None;
            }
            assert(prefix@.subrange(0, start - 1) =~= path@.take(start - 1));
            end = start - 1;
        } else if chars_equal(seg.as_slice(), dotdot.as_slice()) {
            return None;
        } else {
            return Some(seg);
        }
    }
    assert(path@.take(0) =~= Seq::<char>::empty());
    None
}

/// The stem of a file name (`Path::file_prefix`): the text before the first
/// dot that is not the leading character.
pub open spec fn stem_of(name: Seq<char>) -> Seq<char> {
    if name == seq!['.', '.'] || name.len() == 0 {
        name
    } else {
        match crate::text::find_char(name.drop_first(), '.') {
            Some(i) => name.subrange(0, i + 1),
            None => name,
        }
    }
}

/// The extension of a file name (`Path::extension`): the text after the last
/// dot, unless there is no dot or the only dot leads the name.
pub open spec fn extension_of(name: Seq<char>) -> Option<Seq<char>> {
    if name == seq!['.', '.'] {
        None
    } else {
        match rfind_char(name, '.') {
            Some(i) => if i == 0 {
                None
            } else {
                Some(name.subrange(i + 1, name.len() as int))
            },
            None => None,
        }
    }
}

/// The stem of the file name of `path`.
pub open spec fn file_prefix(path: Seq<char>) -> Option<Seq<char>> {
    match file_name(path) {
        Some(n) => Some(stem_of(n)),
        None => None,
    }
}

/// The extension of the file name of `path`.
pub open spec fn extension(path: Seq<char>) -> Option<Seq<char>> {
    match file_name(path) {
        Some(n) => extension_of(n),
        None => None,
    }
}

/// The stem of the file name of `path`.
pub fn file_prefix_of(path: &[char]) -> (r: Option<Vec<char>>)
    ensures
        match r {
            Some(v) => file_prefix(path@) == Some(v@),
            None => file_prefix(path@) is None,
        },
{
    let name = match file_name_of(path) {
        Some(n) => n,
        None => return None,
    };
    let dotdot = chars_of("..");
    proof {
        reveal_strlit("..");
        assert(dotdot@ =~= seq!['.', '.']);
    }
    if name.len() == 0 || chars_equal(name.as_slice(), dotdot.as_slice()) {
        return Some(name);
    }
    let mut i: usize = 1;
    while i < name.len() && name[i] != '.'
        invariant
            1 <= i <= name@.len(),
            forall|j: int| 1 <= j < i ==> name@[j] != '.',
        decreases name@.len() - i,
    {
        i = i + 1;
    }
    proof {
        let t = name@.drop_first();
        crate::text::lemma_find_char_from(t, '.', 0);
        match crate::text::find_char(t, '.') {
            Some(p) => {
                assert(t[p] == name@[p + 1]);
                if p + 1 < i {
                    assert(name@[p + 1] != '.');
                }
                if p + 1 > i {
                    assert(t[i - 1] == name@[i as int]);
                }
            },
            None => {
                if i < name@.len() {
                    assert(t[i - 1] == name@[i as int]);
                }
                assert(name@.subrange(0, i as int) =~= name@);
            },
        }
    }
    Some(slice_chars(name.as_slice(), 0, i))
}

/// The extension of the file name of `path`.
pub fn extension_from(path: &[char]) -> (r: Option<Vec<char>>)
    ensures
        match r {
            Some(v) => extension(path@) == Some(v@),
            None => extension(path@) is None,
        },
{
    let name = match file_name_of(path) {
        Some(n) => n,
        None => return None,
    };
    let dotdot = chars_of("..");
    proof {
        reveal_strlit("..");
        assert(dotdot@ =~= seq!['.', '.']);
    }
    if chars_equal(name.as_slice(), dotdot.as_slice()) {
        return None;
    }
    match rfind_char_pos(name.as_slice(), '.') {
        Some(i) => {
            proof {
                lemma_rfind_char(name@, '.');
            }
            assert(i < name@.len());
            assert(i < name.len());
            if i == 0 {
                None
            } else {
                Some(slice_chars(name.as_slice(), i + 1, name.len()))
            }
        },
        None => None,
    }
}

} // verus!
