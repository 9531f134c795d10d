//! Parsing of the `# Name:` / `# Author:` / `# Icon:` header of a script.
use vstd::prelude::*;
use super::{HeaderModel, ScriptHeader};
use crate::text::{
    chars_equal, chars_of, drop_cr, find_char, find_char_at_or_after, is_prefix, is_white, joined, lines,
    slice_chars, starts_with, string_from_chars, trim, trim_start, trimmed,
};

verus! {

/// The header with no declaration seen yet.
pub open spec fn default_header() -> HeaderModel {
    HeaderModel { name: None, author: None, icon: None, use_hooks: false, use_fbink: true }
}

/// The trimmed text after `prefix`, if it is not empty.
pub open spec fn declared(line: Seq<char>, prefix: Seq<char>) -> Option<Seq<char>> {
    let v = trim(line.subrange(prefix.len() as int, line.len() as int));
    if v.len() > 0 {
        Some(v)
    } else {
        None
    }
}

/// The header after reading one more line.
pub open spec fn apply_line(h: HeaderModel, line: Seq<char>) -> HeaderModel {
    if is_prefix("# Name: "@, line) {
        match declared(line, "# Name: "@) {
            Some(v) => HeaderModel { name: Some(v), ..h },
            None => h,
        }
    } else if is_prefix("# Author: "@, line) {
        match declared(line, "# Author: "@) {
            Some(v) => HeaderModel { author: Some(v), ..h },
            None => h,
        }
    } else if is_prefix("# Icon: "@, line) {
        match declared(line, "# Icon: "@) {
            Some(v) => HeaderModel { icon: Some(v), ..h },
            None => h,
        }
    } else if trim(line) == "# UseHooks"@ {
        HeaderModel { use_hooks: true, ..h }
    } else if trim(line) == "# DontUseFBInk"@ {
        HeaderModel { use_fbink: false, ..h }
    } else {
        h
    }
}

/// What each kind of header line declares: `# Name: v`, `# Author: v` and
/// `# Icon: v` set the name, author and icon to `v` trimmed (when that is
/// not empty, and change nothing otherwise); a line that trims to
/// `# UseHooks` turns hooks on and one that trims to `# DontUseFBInk`
/// turns FBInk output off; nothing else is touched.
pub proof fn lemma_header_line_kinds(h: HeaderModel, v: Seq<char>)
    ensures
        apply_line(h, "# Name: "@ + v) == (if trim(v).len() > 0 {
            (HeaderModel { name: Some(trim(v)), ..h })
        } else {
            h
        }),
        apply_line(h, "# Author: "@ + v) == (if trim(v).len() > 0 {
            (HeaderModel { author: Some(trim(v)), ..h })
        } else {
            h
        }),
        apply_line(h, "# Icon: "@ + v) == (if trim(v).len() > 0 {
            (HeaderModel { icon: Some(trim(v)), ..h })
        } else {
            h
        }),
        apply_line(h, "# UseHooks"@) == (HeaderModel { use_hooks: true, ..h }),
        apply_line(h, "# DontUseFBInk"@) == (HeaderModel { use_fbink: false, ..h }),
{
    reveal_strlit("# Name: ");
    reveal_strlit("# Author: ");
    reveal_strlit("# Icon: ");
    reveal_strlit("# UseHooks");
    reveal_strlit("# DontUseFBInk");
    let n = "# Name: "@;
    let a = "# Author: "@;
    let i = "# Icon: "@;
    assert((n + v).subrange(0, n.len() as int) =~= n);
    assert((n + v).subrange(n.len() as int, (n + v).len() as int) =~= v);
    assert((a + v).subrange(0, a.len() as int) =~= a);
    assert((a + v).subrange(a.len() as int, (a + v).len() as int) =~= v);
    assert((a + v)[2] != n[2]);
    assert((i + v).subrange(0, i.len() as int) =~= i);
    assert((i + v).subrange(i.len() as int, (i + v).len() as int) =~= v);
    assert((i + v)[2] != n[2]);
    assert((i + v)[2] != a[2]);
    let u = "# UseHooks"@;
    let d = "# DontUseFBInk"@;
    assert(u[2] != n[2] && u[2] != a[2] && u[2] != i[2]);
    assert(d[2] != n[2] && d[2] != a[2] && d[2] != i[2]);
    assert(trim(u) =~= u) by {
        assert(!crate::text::is_white(u[0]));
        assert(!crate::text::is_white(u[u.len() - 1]));
        lemma_trim_plain(u);
    }
    assert(trim(d) =~= d) by {
        assert(!crate::text::is_white(d[0]));
        assert(!crate::text::is_white(d[d.len() - 1]));
        lemma_trim_plain(d);
    }
    assert(u != d) by {
        assert(u.len() != d.len());
    }
}

/// A text that neither starts nor ends with whitespace is its own trim.
proof fn lemma_trim_plain(s: Seq<char>)
    requires
        s.len() > 0,
        !crate::text::is_white(s[0]),
        !crate::text::is_white(s[s.len() - 1]),
    ensures
        trim(s) == s,
{
    assert(trim_start(s) == s);
}

/// The header after reading `ls` in order.
pub open spec fn apply_lines(h: HeaderModel, ls: Seq<Seq<char>>) -> HeaderModel
    decreases ls.len(),
{
    if ls.len() == 0 {
        h
    } else {
        apply_lines(apply_line(h, ls[0]), ls.drop_first())
    }
}

/// At most the first `n` elements of `ls`.
pub open spec fn first_n(ls: Seq<Seq<char>>, n: int) -> Seq<Seq<char>> {
    if ls.len() <= n {
        ls
    } else {
        ls.take(n)
    }
}

/// The header that the first six lines of `content` declare.
pub open spec fn header_of(content: Seq<char>) -> HeaderModel {
    apply_lines(default_header(), first_n(lines(content), 6))
}

/// The trimmed value after `prefix` if `line` starts with it: `None` when the
/// line does not start with it, `Some(None)` when the value is empty.
fn declared_value(line: &[char], prefix: &[char]) -> (r: Option<Option<String>>)
    ensures
        match r {
            None => !is_prefix(prefix@, line@),
            Some(v) => is_prefix(prefix@, line@) && match declared(line@, prefix@) {
                Some(d) => v matches Some(s) && s@ == d,
                None => v is None,
            },
        },
{
    if !starts_with(line, prefix) {
        return None;
    }
    let rest = slice_chars(line, prefix.len(), line.len());
    let t = trimmed(rest.as_slice());
    if t.len() == 0 {
        Some(None)
    } else {
        Some(Some(string_from_chars(t.as_slice())))
    }
}

/// Applies one header line.
fn apply_header_line(h: &mut ScriptHeader, line: &[char])
    ensures
        final(h)@ == apply_line(old(h)@, line@),
{
    let name = chars_of("# Name: ");
    let author = chars_of("# Author: ");
    let icon = chars_of("# Icon: ");
    match declared_value(line, name.as_slice()) {
        Some(v) => {
            if let Some(s) = v {
                h.name = Some(s);
            }
            return ;
        },
        None => {},
    }
    match declared_value(line, author.as_slice()) {
        Some(v) => {
            if let Some(s) = v {
                h.author = Some(s);
            }
            return ;
        },
        None => {},
    }
    match declared_value(line, icon.as_slice()) {
        Some(v) => {
            if let Some(s) = v {
                h.icon = Some(s);
            }
            return ;
        },
        None => {},
    }
    let t = trimmed(line);
    let hooks = chars_of("# UseHooks");
    let no_fbink = chars_of("# DontUseFBInk");
    if chars_equal(t.as_slice(), hooks.as_slice()) {
        h.use_hooks = true;
    } else if chars_equal(t.as_slice(), no_fbink.as_slice()) {
        h.use_fbink = false;
    }
}

proof fn lemma_first_n_cons(x: Seq<char>, ys: Seq<Seq<char>>, m: int)
    requires
        m > 0,
    ensures
        first_n(seq![x] + ys, m).len() > 0,
        first_n(seq![x] + ys, m)[0] == x,
        first_n(seq![x] + ys, m).drop_first() == first_n(ys, m - 1),
{
    assert(first_n(seq![x] + ys, m).drop_first() =~= first_n(ys, m - 1));
}

/// Reads the header declarations from the first six lines of a script.
pub fn parse_header(content: &str) -> (r: ScriptHeader)
    ensures
        r@ == header_of(content@),
{
    let mut header = ScriptHeader {
        name: None,
        author: None,
        icon: None,
        use_hooks: false,
        use_fbink: true,
    };
    let s = chars_of(content);
    let mut pos: usize = 0;
    let mut count: usize = 0;
    assert(s@.subrange(0, s@.len() as int) =~= s@);
    while pos < s.len() && count < 6
        invariant
            pos <= s@.len(),
            count <= 6,
            header_of(content@) == apply_lines(
                header@,
                first_n(lines(s@.subrange(pos as int, s@.len() as int)), 6 - count),
            ),
        decreases s@.len() - pos,
    {
        let ghost rest = s@.subrange(pos as int, s@.len() as int);
        let found = find_char_at_or_after(s.as_slice(), '\n', pos);
        proof {
            crate::text::lemma_find_char_from(s@, '\n', pos as int);
        }
        let line_end;
        let next;
        let newline;
        match found {
            Some(k) => {
                line_end = k;
                next = k + 1;
                newline = true;
            },
            None => {
                line_end = s.len();
                next = s.len();
                newline = false;
            },
        }
        let mut line = slice_chars(s.as_slice(), pos, line_end);
        if newline && line.len() > 0 && line[line.len() - 1] == '\r' {
            line.pop();
        }
        proof {
            crate::text::lemma_find_char_from(s@, '\n', pos as int);
            crate::text::lemma_find_char_from(rest, '\n', 0);
            match find_char(rest, '\n') {
                Some(j) => {
                    assert(rest[j] == s@[pos + j]);
                    assert(j == line_end - pos) by {
                        if j < line_end - pos {
                            assert(rest[j] == s@[pos + j]);
                        } else if j > line_end - pos {
                            assert(rest[line_end - pos] == s@[line_end as int]);
                        }
                    }
                    assert(rest.subrange(0, j) =~= s@.subrange(pos as int, line_end as int));
                    assert(rest.subrange(j + 1, rest.len() as int) =~= s@.subrange(
                        next as int,
                        s@.len() as int,
                    ));
                    assert(line@ == drop_cr(rest.subrange(0, j))) by {
                        let l = rest.subrange(0, j);
                        if l.len() > 0 && l.last() == '\r' {
                            assert(line@ =~= l.drop_last());
                        }
                    }
                    assert(lines(rest) == seq![line@] + lines(
                        s@.subrange(next as int, s@.len() as int),
                    ));
                },
                None => {
                    assert forall|j: int| 0 <= j < rest.len() implies rest[j] != '\n' by {
                        assert(rest[j] == s@[pos + j]);
                    }
                    if line_end < s@.len() {
                        assert(rest[line_end - pos] == s@[line_end as int]);
                    }
                    assert(line_end == s@.len());
                    assert(line@ =~= rest);
                    assert(lines(rest) == seq![rest]);
                    assert(s@.subrange(next as int, s@.len() as int) =~= Seq::<char>::empty());
                    assert(lines(Seq::<char>::empty()) == Seq::<Seq<char>>::empty());
                    assert(seq![rest] =~= seq![rest] + Seq::<Seq<char>>::empty());
                },
            }
            lemma_first_n_cons(
                line@,
                lines(s@.subrange(next as int, s@.len() as int)),
                6 - count as int,
            );
        }
        apply_header_line(&mut header, line.as_slice());
        pos = next;
        count = count + 1;
    }
    proof {
        if pos >= s@.len() {
            assert(s@.subrange(pos as int, s@.len() as int) =~= Seq::<char>::empty());
            assert(first_n(lines(Seq::<char>::empty()), 6 - count) =~= Seq::<Seq<char>>::empty());
        } else {
            assert(first_n(lines(s@.subrange(pos as int, s@.len() as int)), 0) =~= Seq::<
                Seq<char>,
            >::empty());
        }
    }
    header
}

/// Text after a line break splits into lines on its own: the lines of
/// `a + b` are those of `a` followed by those of `b` when `a` ends a line.
pub proof fn lemma_lines_append(a: Seq<char>, b: Seq<char>)
    requires
        a.len() > 0,
        a.last() == '\n',
    ensures
        lines(a + b) == lines(a) + lines(b),
    decreases a.len(),
{
    let s = a + b;
    crate::text::lemma_find_char_from(a, '\n', 0);
    crate::text::lemma_find_char_from(s, '\n', 0);
    assert(a[a.len() - 1] == '\n');
    let k = match find_char(a, '\n') {
        Some(k) => k,
        None => 0,
    };
    assert(find_char(a, '\n') == Some(k));
    assert(s[k] == a[k]);
    match find_char(s, '\n') {
        Some(j) => {
            if j < k {
                assert(s[j] == a[j]);
            }
        },
        None => {},
    }
    assert(find_char(s, '\n') == Some(k));
    assert(s.subrange(0, k) =~= a.subrange(0, k));
    let ra = a.subrange(k + 1, a.len() as int);
    assert(s.subrange(k + 1, s.len() as int) =~= ra + b);
    if k + 1 == a.len() {
        assert(ra =~= Seq::<char>::empty());
        assert(ra + b =~= b);
        assert(lines(ra) == Seq::<Seq<char>>::empty());
        assert(lines(a) =~= seq![drop_cr(a.subrange(0, k))] + Seq::<Seq<char>>::empty());
    } else {
        assert(ra.last() == '\n');
        lemma_lines_append(ra, b);
        assert(lines(s) =~= lines(a) + lines(b));
    }
}

/// Only the first six lines are read: whatever follows six complete lines
/// leaves the header as it is.
pub proof fn lemma_header_reads_six_lines(a: Seq<char>, rest: Seq<char>)
    requires
        a.len() > 0,
        a.last() == '\n',
        lines(a).len() >= 6,
    ensures
        header_of(a + rest) == header_of(a),
{
    lemma_lines_append(a, rest);
    assert(first_n(lines(a) + lines(rest), 6) =~= first_n(lines(a), 6));
}

/// Leading whitespace of a text that ends in whitespace: dropping that last
/// character drops the last character of what remains after it.
proof fn lemma_trim_start_drop_last(s: Seq<char>)
    requires
        s.len() > 0,
        is_white(s.last()),
    ensures
        trim_start(s).len() == 0 ==> trim_start(s.drop_last()).len() == 0,
        trim_start(s).len() > 0 ==> trim_start(s.drop_last()) == trim_start(s).drop_last() && is_white(
            trim_start(s).last(),
        ),
    decreases s.len(),
{
    if is_white(s[0]) {
        if s.len() > 1 {
            assert(s.drop_last().drop_first() =~= s.drop_first().drop_last());
            assert(s.drop_first().last() == s.last());
            lemma_trim_start_drop_last(s.drop_first());
        } else {
            assert(s.drop_first().len() == 0);
        }
    } else {
        assert(s.len() >= 2);
        assert(s.drop_last()[0] == s[0]);
    }
}

/// Trailing whitespace does not change the trimmed text.
proof fn lemma_trim_drop_white(s: Seq<char>)
    requires
        s.len() > 0,
        is_white(s.last()),
    ensures
        trim(s) == trim(s.drop_last()),
{
    lemma_trim_start_drop_last(s);
}

/// A carriage return left at the end of a line changes nothing it declares.
proof fn lemma_apply_line_drop_cr(h: HeaderModel, l: Seq<char>)
    ensures
        apply_line(h, drop_cr(l)) == apply_line(h, l),
{
    if l.len() > 0 && l.last() == '\r' {
        assert(is_white(l.last()));
        lemma_trim_drop_white(l);
        reveal_strlit("# Name: ");
        reveal_strlit("# Author: ");
        reveal_strlit("# Icon: ");
        lemma_prefix_drop_cr(l, "# Name: "@);
        lemma_prefix_drop_cr(l, "# Author: "@);
        lemma_prefix_drop_cr(l, "# Icon: "@);
    }
}

/// A prefix that ends in a space matches a line ending in a carriage return
/// exactly when it matches the line without it, and declares the same value.
proof fn lemma_prefix_drop_cr(l: Seq<char>, p: Seq<char>)
    requires
        l.len() > 0,
        l.last() == '\r',
        p.len() > 0,
        p.last() == ' ',
    ensures
        is_prefix(p, l) == is_prefix(p, l.drop_last()),
        is_prefix(p, l) ==> declared(l, p) == declared(l.drop_last(), p),
{
    let d = l.drop_last();
    if p.len() <= d.len() {
        assert(l.subrange(0, p.len() as int) =~= d.subrange(0, p.len() as int));
        let v = l.subrange(p.len() as int, l.len() as int);
        assert(d.subrange(p.len() as int, d.len() as int) =~= v.drop_last());
        assert(v.last() == '\r');
        assert(is_white(v.last()));
        lemma_trim_drop_white(v);
    } else if p.len() == l.len() {
        if is_prefix(p, l) {
            assert(l[l.len() - 1] == p[p.len() - 1]);
        }
    }
}

/// A line without a line break before a line break and more text: it is
/// the first line, without a carriage return before the break.
proof fn lemma_lines_cons(a: Seq<char>, b: Seq<char>)
    requires
        forall|i: int| 0 <= i < a.len() ==> a[i] != '\n',
    ensures
        lines(a + seq!['\n'] + b) == seq![drop_cr(a)] + lines(b),
{
    let s = a + seq!['\n'] + b;
    crate::text::lemma_find_char_from(s, '\n', 0);
    assert(s[a.len() as int] == '\n');
    match find_char(s, '\n') {
        Some(j) => {
            if j < a.len() {
                assert(s[j] == a[j]);
            }
        },
        None => {},
    }
    assert(find_char(s, '\n') == Some(a.len() as int));
    assert(s.subrange(0, a.len() as int) =~= a);
    assert(s.subrange(a.len() as int + 1, s.len() as int) =~= b);
}

/// No line holds a line break.
proof fn lemma_lines_no_break(s: Seq<char>)
    ensures
        forall|i: int, j: int|
            0 <= i < lines(s).len() && 0 <= j < lines(s)[i].len() ==> #[trigger] lines(s)[i][j] != '\n',
    decreases s.len(),
{
    if s.len() > 0 {
        crate::text::lemma_find_char_from(s, '\n', 0);
        match find_char(s, '\n') {
            Some(k) => {
                let rest = s.subrange(k + 1, s.len() as int);
                lemma_lines_no_break(rest);
                let first = drop_cr(s.subrange(0, k));
                assert forall|i: int, j: int|
                    0 <= i < lines(s).len() && 0 <= j < lines(s)[i].len() implies #[trigger] lines(s)[i][j]
                    != '\n' by {
                    if i == 0 {
                        assert(lines(s)[0] == first);
                        assert(first[j] == s[j]);
                    } else {
                        assert(lines(s)[i] == lines(rest)[i - 1]);
                    }
                }
            },
            None => {},
        }
    }
}

/// Joining parts puts the first one in front.
proof fn lemma_joined_front(parts: Seq<Seq<char>>, sep: Seq<char>)
    requires
        parts.len() >= 2,
    ensures
        joined(parts, sep) == parts[0] + sep + joined(parts.drop_first(), sep),
    decreases parts.len(),
{
    let d = parts.drop_last();
    let f = parts.drop_first();
    if parts.len() > 2 {
        lemma_joined_front(d, sep);
        assert(d.drop_first() =~= f.drop_last());
        assert(f.last() == parts.last());
        assert(d[0] == parts[0]);
        assert(joined(f, sep) == joined(f.drop_last(), sep) + sep + f.last());
        assert(joined(parts, sep) == joined(d, sep) + sep + parts.last());
        assert(joined(parts, sep) =~= parts[0] + sep + joined(f, sep));
    } else {
        assert(d =~= seq![parts[0]]);
        assert(f =~= seq![parts[1]]);
        assert(joined(d, sep) == parts[0]);
        assert(joined(f, sep) == parts[1]);
    }
}

/// Reading the lines of lines joined with line breaks declares what
/// reading those lines does, and gives no more lines.
proof fn lemma_apply_joined_lines(h: HeaderModel, ls: Seq<Seq<char>>)
    requires
        ls.len() > 0,
        forall|i: int, j: int| 0 <= i < ls.len() && 0 <= j < ls[i].len() ==> #[trigger] ls[i][j] != '\n',
    ensures
        lines(joined(ls, seq!['\n'])).len() <= ls.len(),
        apply_lines(h, lines(joined(ls, seq!['\n']))) == apply_lines(h, ls),
    decreases ls.len(),
{
    let nl = seq!['\n'];
    if ls.len() == 1 {
        let l = ls[0];
        assert(joined(ls, nl) == l);
        crate::text::lemma_find_char_from(l, '\n', 0);
        assert(find_char(l, '\n') is None) by {
            match find_char(l, '\n') {
                Some(k) => {
                    assert(ls[0][k] != '\n');
                },
                None => {},
            }
        }
        assert(ls.drop_first().len() == 0);
        assert(apply_lines(h, ls) == apply_lines(apply_line(h, l), ls.drop_first()));
        assert(apply_lines(apply_line(h, l), ls.drop_first()) == apply_line(h, l));
        if l.len() == 0 {
            assert(apply_line(h, l) == h) by {
                reveal_strlit("# Name: ");
                reveal_strlit("# Author: ");
                reveal_strlit("# Icon: ");
                reveal_strlit("# UseHooks");
                reveal_strlit("# DontUseFBInk");
                assert(trim(l) =~= l);
            }
        } else {
            assert(lines(l) == seq![l]);
            assert(seq![l].drop_first().len() == 0);
            assert(apply_lines(h, seq![l]) == apply_lines(apply_line(h, l), seq![l].drop_first()));
        }
    } else {
        let rest = ls.drop_first();
        lemma_joined_front(ls, nl);
        assert forall|j: int| 0 <= j < ls[0].len() implies #[trigger] ls[0][j] != '\n' by {
            assert(ls[0][j] != '\n');
        }
        lemma_lines_cons(ls[0], joined(rest, nl));
        assert forall|i: int, j: int| 0 <= i < rest.len() && 0 <= j < rest[i].len() implies #[trigger] rest[i][j]
            != '\n' by {
            assert(rest[i] == ls[i + 1]);
        }
        lemma_apply_line_drop_cr(h, ls[0]);
        lemma_apply_joined_lines(apply_line(h, ls[0]), rest);
        let lj = lines(joined(ls, nl));
        assert(lj == seq![drop_cr(ls[0])] + lines(joined(rest, nl)));
        assert(lj.drop_first() =~= lines(joined(rest, nl)));
        assert(apply_lines(h, lj) == apply_lines(apply_line(h, lj[0]), lj.drop_first()));
        assert(apply_lines(h, ls) == apply_lines(apply_line(h, ls[0]), rest));
    }
}

/// Only the first six lines count: the header of a script is the header of
/// its first six lines joined with line breaks.
pub proof fn lemma_header_of_first_six_lines(content: Seq<char>)
    ensures
        header_of(content) == header_of(joined(first_n(lines(content), 6), seq!['\n'])),
{
    let ls = first_n(lines(content), 6);
    lemma_lines_no_break(content);
    if ls.len() == 0 {
        assert(joined(ls, seq!['\n']).len() == 0);
        assert(lines(joined(ls, seq!['\n'])).len() == 0);
        assert(first_n(lines(Seq::<char>::empty()), 6).len() == 0);
    } else {
        assert forall|i: int, j: int| 0 <= i < ls.len() && 0 <= j < ls[i].len() implies #[trigger] ls[i][j]
            != '\n' by {
            assert(ls[i] == lines(content)[i]);
        }
        lemma_apply_joined_lines(default_header(), ls);
        let lj = lines(joined(ls, seq!['\n']));
        assert(first_n(lj, 6) == lj);
    }
}

} // verus!
