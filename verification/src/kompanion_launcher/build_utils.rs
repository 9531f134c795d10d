//! Generation of the application-registry SQL from the indexers' file
//! extensions and MIME types, and the source scanning that finds them.
use vstd::prelude::*;
use vstd::string::*;
use crate::text::{
    char_vec_views, chars_equal, chars_of, find, find_char, find_char_pos, find_first, is_prefix,
    is_suffix, joined, lines, slice_chars, split_lines, starts_with, string_from_chars, string_views, substring,
    trim, trimmed,
};

verus! {

/// One file extension an indexer takes, with the MIME type it registers.
#[derive(Debug, Clone, PartialEq, Eq)]
pub struct IndexerSpec {
    pub extension: String,
    pub mime_type: String,
}

/// Each extension in single quotes.
pub open spec fn quoted_exts(specs: Seq<IndexerSpec>) -> Seq<Seq<char>> {
    specs.map_values(|s: IndexerSpec| "'"@ + s.extension@ + "'"@)
}

/// The extensions as an SQL list: `'a', 'b'`.
pub open spec fn ext_list(specs: Seq<IndexerSpec>) -> Seq<char> {
    joined(quoted_exts(specs), ", "@)
}

/// The quoted, comma-separated extensions.
pub fn quoted_ext_list(specs: &[IndexerSpec]) -> (r: String)
    ensures
        r@ == ext_list(specs@),
{
    let mut out = String::new();
    let mut i: usize = 0;
    assert(quoted_exts(specs@).take(0) =~= Seq::<Seq<char>>::empty());
    while i < specs.len()
        invariant
            i <= specs@.len(),
            out@ == joined(quoted_exts(specs@).take(i as int), ", "@),
        decreases specs@.len() - i,
    {
        assert(quoted_exts(specs@).take(i + 1).drop_last() =~= quoted_exts(specs@).take(i as int));
        if i > 0 {
            out.append(", ");
        } else {
            assert(quoted_exts(specs@).take(1) =~= seq![quoted_exts(specs@)[0]]);
        }
        let ghost before = out@;
        out.append("'");
        out.append(specs[i].extension.as_str());
        out.append("'");
        assert(out@ =~= before + quoted_exts(specs@)[i as int]);
        i = i + 1;
    }
    assert(quoted_exts(specs@).take(specs@.len() as int) =~= quoted_exts(specs@));
    out
}

/// The two `DELETE` statements that clear the extensions.
pub open spec fn delete_ext_rows(specs: Seq<IndexerSpec>) -> Seq<char> {
    "DELETE FROM mimetypes WHERE ext IN ("@ + ext_list(specs) + ");\n"@
        + "DELETE FROM extenstions WHERE ext IN ("@ + ext_list(specs) + ");\n\n"@
}

/// The `mimetypes` and `extenstions` rows of one extension.
pub open spec fn type_rows(s: IndexerSpec) -> Seq<char> {
    "INSERT INTO mimetypes (ext, mimetype) VALUES ('"@ + s.extension@ + "', 'MT:"@ + s.mime_type@
        + "');\n"@ + "INSERT INTO extenstions (ext, mimetype) VALUES ('"@ + s.extension@
        + "', 'MT:"@ + s.mime_type@ + "');\n"@
}

/// The launcher association row of one MIME type.
pub open spec fn launcher_row(s: IndexerSpec) -> Seq<char> {
    "INSERT INTO associations (interface, handlerId, contentId, defaultAssoc) VALUES ('application', 'com.notmarek.kompanion.launcher', 'MT:"@
        + s.mime_type@ + "', 'true');\n"@
}

/// The extractor association row of one extension.
pub open spec fn extractor_row(s: IndexerSpec) -> Seq<char> {
    "INSERT INTO associations (interface, handlerId, contentId, defaultAssoc) VALUES ('extractor', 'com.notmarek.kompanion.extractor', 'GL:*."@
        + s.extension@ + "', 'true');\n"@
}

/// The rows that `row` gives for each spec, in order.
pub open spec fn rows(specs: Seq<IndexerSpec>, row: spec_fn(IndexerSpec) -> Seq<char>) -> Seq<char>
    decreases specs.len(),
{
    if specs.len() == 0 {
        Seq::empty()
    } else {
        rows(specs.drop_last(), row) + row(specs.last())
    }
}

/// The launcher's clean-up and registration, before its associations.
pub open spec fn launcher_block() -> Seq<char> {
    "\n-- Launcher: clean old rows first (safe reinstall)\n"@
        + "DELETE FROM associations WHERE handlerId = 'com.notmarek.kompanion.launcher';\n"@
        + "DELETE FROM properties WHERE handlerId = 'com.notmarek.kompanion.launcher';\n"@
        + "DELETE FROM handlerIds WHERE handlerId = 'com.notmarek.kompanion.launcher';\n\n"@
        + "INSERT INTO handlerIds (handlerId) VALUES ('com.notmarek.kompanion.launcher');\n"@
        + "INSERT INTO properties (handlerId, name, value) VALUES ('com.notmarek.kompanion.launcher', 'extend-start', 'Y');\n"@
        + "INSERT INTO properties (handlerId, name, value) VALUES ('com.notmarek.kompanion.launcher', 'unloadPolicy', 'unloadOnPause');\n"@
        + "INSERT INTO properties (handlerId, name, value) VALUES ('com.notmarek.kompanion.launcher', 'maxGoTime', '60');\n"@
        + "INSERT INTO properties (handlerId, name, value) VALUES ('com.notmarek.kompanion.launcher', 'maxPauseTime', '60');\n"@
        + "INSERT INTO properties (handlerId, name, value) VALUES ('com.notmarek.kompanion.launcher', 'maxUnloadTime', '60');\n"@
        + "INSERT INTO properties (handlerId, name, value) VALUES ('com.notmarek.kompanion.launcher', 'maxLoadTime', '60');\n"@
        + "INSERT INTO properties (handlerId, name, value) VALUES ('com.notmarek.kompanion.launcher', 'command', '/var/local/kompanion/bin/kompanion_launcher');\n"@
}

/// The extractor's clean-up and registration, before its associations.
pub open spec fn extractor_block() -> Seq<char> {
    "\n-- Extractor: clean old rows first (safe reinstall), path set by install.sh\n"@
        + "DELETE FROM associations WHERE handlerId = 'com.notmarek.kompanion.extractor';\n"@
        + "DELETE FROM properties WHERE handlerId = 'com.notmarek.kompanion.extractor';\n"@
        + "DELETE FROM handlerIds WHERE handlerId = 'com.notmarek.kompanion.extractor';\n\n"@
        + "INSERT INTO handlerIds (handlerId) VALUES ('com.notmarek.kompanion.extractor');\n"@
        + "INSERT INTO properties (handlerId, name, value) VALUES ('com.notmarek.kompanion.extractor', 'lib', '@EXTRACTOR_LIB@');\n"@
        + "INSERT INTO properties (handlerId, name, value) VALUES ('com.notmarek.kompanion.extractor', 'entry', 'load_extractor');\n"@
}

/// The whole install script.
pub open spec fn install_sql(specs: Seq<IndexerSpec>) -> Seq<char> {
    "BEGIN;\n"@ + delete_ext_rows(specs) + rows(specs, |s: IndexerSpec| type_rows(s))
        + launcher_block() + rows(specs, |s: IndexerSpec| launcher_row(s)) + extractor_block()
        + rows(specs, |s: IndexerSpec| extractor_row(s)) + "COMMIT;\n"@
}

/// The whole uninstall script.
pub open spec fn uninstall_sql(specs: Seq<IndexerSpec>) -> Seq<char> {
    "BEGIN;\n"@ + delete_ext_rows(specs)
        + "-- Remove associations and properties for the launcher\n"@
        + "DELETE FROM associations WHERE handlerId = 'com.notmarek.kompanion.launcher';\n"@
        + "DELETE FROM properties WHERE handlerId = 'com.notmarek.kompanion.launcher';\n"@
        + "DELETE FROM handlerIds WHERE handlerId = 'com.notmarek.kompanion.launcher';\n\n"@
        + "-- Remove associations and properties for the extractor\n"@
        + "DELETE FROM associations WHERE handlerId = 'com.notmarek.kompanion.extractor';\n"@
        + "DELETE FROM properties WHERE handlerId = 'com.notmarek.kompanion.extractor';\n"@
        + "DELETE FROM handlerIds WHERE handlerId = 'com.notmarek.kompanion.extractor';\n"@
        + "COMMIT;\n"@
}

/// Appends the two `DELETE` statements that clear the extensions.
fn push_delete_ext_rows(out: &mut String, exts: &str)
    ensures
        final(out)@ == old(out)@ + ("DELETE FROM mimetypes WHERE ext IN ("@ + exts@ + ");\n"@
            + "DELETE FROM extenstions WHERE ext IN ("@ + exts@ + ");\n\n"@),
{
    let ghost start = out@;
    out.append("DELETE FROM mimetypes WHERE ext IN (");
    out.append(exts);
    out.append(");\n");
    out.append("DELETE FROM extenstions WHERE ext IN (");
    out.append(exts);
    out.append(");\n\n");
    assert(out@ =~= start + ("DELETE FROM mimetypes WHERE ext IN ("@ + exts@ + ");\n"@
        + "DELETE FROM extenstions WHERE ext IN ("@ + exts@ + ");\n\n"@));
}

/// Which per-spec row to write.
pub enum RowKind {
    Types,
    Launcher,
    Extractor,
}

/// The row of kind `k` for `s`.
pub open spec fn row_of(k: RowKind, s: IndexerSpec) -> Seq<char> {
    match k {
        RowKind::Types => type_rows(s),
        RowKind::Launcher => launcher_row(s),
        RowKind::Extractor => extractor_row(s),
    }
}

/// Appends the row of kind `k` for `s`.
fn push_row(out: &mut String, k: &RowKind, s: &IndexerSpec)
    ensures
        final(out)@ == old(out)@ + row_of(*k, *s),
{
    let ghost start = out@;
    match k {
        RowKind::Types => {
            out.append("INSERT INTO mimetypes (ext, mimetype) VALUES ('");
            out.append(s.extension.as_str());
            out.append("', 'MT:");
            out.append(s.mime_type.as_str());
            out.append("');\n");
            out.append("INSERT INTO extenstions (ext, mimetype) VALUES ('");
            out.append(s.extension.as_str());
            out.append("', 'MT:");
            out.append(s.mime_type.as_str());
            out.append("');\n");
        },
        RowKind::Launcher => {
            out.append(
                "INSERT INTO associations (interface, handlerId, contentId, defaultAssoc) VALUES ('application', 'com.notmarek.kompanion.launcher', 'MT:",
            );
            out.append(s.mime_type.as_str());
            out.append("', 'true');\n");
        },
        RowKind::Extractor => {
            out.append(
                "INSERT INTO associations (interface, handlerId, contentId, defaultAssoc) VALUES ('extractor', 'com.notmarek.kompanion.extractor', 'GL:*.",
            );
            out.append(s.extension.as_str());
            out.append("', 'true');\n");
        },
    }
    assert(out@ =~= start + row_of(*k, *s));
}

/// Appends the rows of kind `k` for every spec.
fn push_rows(out: &mut String, k: RowKind, specs: &[IndexerSpec])
    ensures
        final(out)@ == old(out)@ + rows(specs@, |s: IndexerSpec| row_of(k, s)),
{
    let ghost start = out@;
    let ghost f = |s: IndexerSpec| row_of(k, s);
    let mut i: usize = 0;
    assert(specs@.take(0) =~= Seq::<IndexerSpec>::empty());
    assert(start + Seq::<char>::empty() =~= start);
    while i < specs.len()
        invariant
            i <= specs@.len(),
            f == (|s: IndexerSpec| row_of(k, s)),
            out@ == start + rows(specs@.take(i as int), f),
        decreases specs@.len() - i,
    {
        assert(specs@.take(i + 1).drop_last() =~= specs@.take(i as int));
        push_row(out, &k, &specs[i]);
        assert(start + rows(specs@.take(i as int), f) + row_of(k, specs@[i as int]) =~= start + (rows(
            specs@.take(i as int),
            f,
        ) + row_of(k, specs@[i as int])));
        i = i + 1;
    }
    assert(specs@.take(specs@.len() as int) =~= specs@);
}

/// The SQL that registers the extractor and the launcher for every
/// indexer extension and MIME type.
pub fn generate_install_sql(specs: &[IndexerSpec]) -> (r: String)
    ensures
        r@ == install_sql(specs@),
{
    let exts = quoted_ext_list(specs);
    let mut out = String::from_str("BEGIN;\n");
    push_delete_ext_rows(&mut out, exts.as_str());
    push_rows(&mut out, RowKind::Types, specs);
    let ghost a = out@;
    out.append("\n-- Launcher: clean old rows first (safe reinstall)\n");
    out.append("DELETE FROM associations WHERE handlerId = 'com.notmarek.kompanion.launcher';\n");
    out.append("DELETE FROM properties WHERE handlerId = 'com.notmarek.kompanion.launcher';\n");
    out.append("DELETE FROM handlerIds WHERE handlerId = 'com.notmarek.kompanion.launcher';\n\n");
    out.append("INSERT INTO handlerIds (handlerId) VALUES ('com.notmarek.kompanion.launcher');\n");
    out.append(
        "INSERT INTO properties (handlerId, name, value) VALUES ('com.notmarek.kompanion.launcher', 'extend-start', 'Y');\n",
    );
    out.append(
        "INSERT INTO properties (handlerId, name, value) VALUES ('com.notmarek.kompanion.launcher', 'unloadPolicy', 'unloadOnPause');\n",
    );
    out.append(
        "INSERT INTO properties (handlerId, name, value) VALUES ('com.notmarek.kompanion.launcher', 'maxGoTime', '60');\n",
    );
    out.append(
        "INSERT INTO properties (handlerId, name, value) VALUES ('com.notmarek.kompanion.launcher', 'maxPauseTime', '60');\n",
    );
    out.append(
        "INSERT INTO properties (handlerId, name, value) VALUES ('com.notmarek.kompanion.launcher', 'maxUnloadTime', '60');\n",
    );
    out.append(
        "INSERT INTO properties (handlerId, name, value) VALUES ('com.notmarek.kompanion.launcher', 'maxLoadTime', '60');\n",
    );
    out.append(
        "INSERT INTO properties (handlerId, name, value) VALUES ('com.notmarek.kompanion.launcher', 'command', '/var/local/kompanion/bin/kompanion_launcher');\n",
    );
    assert(out@ =~= a + launcher_block());
    push_rows(&mut out, RowKind::Launcher, specs);
    let ghost b = out@;
    out.append(
        "\n-- Extractor: clean old rows first (safe reinstall), path set by install.sh\n",
    );
    out.append("DELETE FROM associations WHERE handlerId = 'com.notmarek.kompanion.extractor';\n");
    out.append("DELETE FROM properties WHERE handlerId = 'com.notmarek.kompanion.extractor';\n");
    out.append("DELETE FROM handlerIds WHERE handlerId = 'com.notmarek.kompanion.extractor';\n\n");
    out.append("INSERT INTO handlerIds (handlerId) VALUES ('com.notmarek.kompanion.extractor');\n");
    out.append(
        "INSERT INTO properties (handlerId, name, value) VALUES ('com.notmarek.kompanion.extractor', 'lib', '@EXTRACTOR_LIB@');\n",
    );
    out.append(
        "INSERT INTO properties (handlerId, name, value) VALUES ('com.notmarek.kompanion.extractor', 'entry', 'load_extractor');\n",
    );
    assert(out@ =~= b + extractor_block());
    push_rows(&mut out, RowKind::Extractor, specs);
    out.append("COMMIT;\n");
    proof {
        assert((|s: IndexerSpec| row_of(RowKind::Types, s)) =~= (|s: IndexerSpec| type_rows(s)));
        assert((|s: IndexerSpec| row_of(RowKind::Launcher, s)) =~= (|s: IndexerSpec| launcher_row(s)));
        assert((|s: IndexerSpec| row_of(RowKind::Extractor, s)) =~= (|s: IndexerSpec| extractor_row(s)));
        assert(out@ =~= install_sql(specs@));
    }
    out
}

/// The SQL that removes everything the install script registered.
pub fn generate_uninstall_sql(specs: &[IndexerSpec]) -> (r: String)
    ensures
        r@ == uninstall_sql(specs@),
{
    let exts = quoted_ext_list(specs);
    let mut out = String::from_str("BEGIN;\n");
    push_delete_ext_rows(&mut out, exts.as_str());
    out.append("-- Remove associations and properties for the launcher\n");
    out.append("DELETE FROM associations WHERE handlerId = 'com.notmarek.kompanion.launcher';\n");
    out.append("DELETE FROM properties WHERE handlerId = 'com.notmarek.kompanion.launcher';\n");
    out.append("DELETE FROM handlerIds WHERE handlerId = 'com.notmarek.kompanion.launcher';\n\n");
    out.append("-- Remove associations and properties for the extractor\n");
    out.append("DELETE FROM associations WHERE handlerId = 'com.notmarek.kompanion.extractor';\n");
    out.append("DELETE FROM properties WHERE handlerId = 'com.notmarek.kompanion.extractor';\n");
    out.append("DELETE FROM handlerIds WHERE handlerId = 'com.notmarek.kompanion.extractor';\n");
    out.append("COMMIT;\n");
    assert(out@ =~= uninstall_sql(specs@));
    out
}

} // verus!

verus! {

/// The text before the first `#[cfg(test)]` (all of it when there is none).
pub open spec fn before_tests_of(src: Seq<char>) -> Seq<char> {
    match find_first(src, "#[cfg(test)]"@) {
        Some(i) => src.subrange(0, i),
        None => src,
    }
}

/// The source text up to its test module.
pub fn before_tests(src: &[char]) -> (r: Vec<char>)
    ensures
        r@ == before_tests_of(src@),
{
    let marker = chars_of("#[cfg(test)]");
    match find(src, marker.as_slice()) {
        Some(i) => {
            proof {
                crate::text::lemma_find_from(src@, marker@, 0);
            }
            slice_chars(src, 0, i)
        },
        None => {
            assert(src@.subrange(0, src@.len() as int) =~= src@);
            slice_chars(src, 0, src.len())
        },
    }
}

/// The first string literal after the first `marker` in `src`.
pub open spec fn string_after(src: Seq<char>, marker: Seq<char>) -> Option<Seq<char>> {
    match find_first(src, marker) {
        None => None,
        Some(i) => {
            let rest = src.subrange(i + marker.len(), src.len() as int);
            match find_char(rest, '"') {
                None => None,
                Some(s) => {
                    let lit = rest.subrange(s + 1, rest.len() as int);
                    match find_char(lit, '"') {
                        None => None,
                        Some(e) => Some(lit.subrange(0, e)),
                    }
                },
            }
        },
    }
}

/// The contents of the first string literal after the first `marker`.
pub fn extract_string_after(src: &[char], marker: &[char]) -> (r: Option<String>)
    ensures
        opt_text(r) == string_after(src@, marker@),
{
    let found = find(src, marker);
    let i = match found {
        Some(i) => i,
        None => return None,
    };
    proof {
        crate::text::lemma_find_from(src@, marker@, 0);
    }
    let ml = marker.len();
    let sl = src.len();
    assert(i + ml <= sl);
    let rest = slice_chars(src, i + ml, sl);
    let s = match find_char_pos(rest.as_slice(), '"') {
        Some(s) => s,
        None => return None,
    };
    proof {
        crate::text::lemma_find_char_from(rest@, '"', 0);
    }
    let lit = slice_chars(rest.as_slice(), s + 1, rest.len());
    let e = match find_char_pos(lit.as_slice(), '"') {
        Some(e) => e,
        None => return None,
    };
    proof {
        crate::text::lemma_find_char_from(lit@, '"', 0);
    }
    Some(substring(lit.as_slice(), 0, e))
}

/// The view of an optional string.
pub open spec fn opt_text(o: Option<String>) -> Option<Seq<char>> {
    match o {
        Some(s) => Some(s@),
        None => None,
    }
}

/// The text that opens a `ends_with("...")` call.
pub open spec fn ends_with_marker() -> Seq<char> {
    "ends_with(\""@
}

/// The extensions named by `ends_with(".ext")` calls in `rest`, appended to
/// `found` in order of appearance, each at most once.
pub open spec fn listed_extensions(rest: Seq<char>, found: Seq<Seq<char>>) -> Seq<Seq<char>>
    decreases rest.len(),
{
    match find_first(rest, ends_with_marker()) {
        None => found,
        Some(i) => {
            if i < 0 || i + ends_with_marker().len() > rest.len() {
                found
            } else {
                let after = rest.subrange(i + ends_with_marker().len(), rest.len() as int);
                match find_char(after, '"') {
                    None => found,
                    Some(e) => {
                        if e < 0 || e >= after.len() {
                            found
                        } else {
                            let lit = after.subrange(0, e);
                            let next = if lit.len() > 1 && lit[0] == '.' && !found.contains(
                                lit.drop_first(),
                            ) {
                                found.push(lit.drop_first())
                            } else {
                                found
                            };
                            listed_extensions(after.subrange(e + 1, after.len() as int), next)
                        }
                    },
                }
            }
        },
    }
}

/// Whether one of the strings equals `s`.
fn contains_text(v: &Vec<String>, s: &[char]) -> (r: bool)
    ensures
        r == string_views(v@).contains(s@),
{
    let mut i: usize = 0;
    while i < v.len()
        invariant
            i <= v@.len(),
            forall|j: int| 0 <= j < i ==> v@[j]@ != s@,
        decreases v@.len() - i,
    {
        let c = chars_of(v[i].as_str());
        if chars_equal(c.as_slice(), s) {
            assert(string_views(v@)[i as int] == s@);
            return true;
        }
        i = i + 1;
    }
    assert forall|j: int| 0 <= j < string_views(v@).len() implies string_views(v@)[j] != s@ by {
        assert(string_views(v@)[j] == v@[j]@);
    }
    false
}

/// The extensions tested with `ends_with(".ext")` in `src`, each once, in
/// order of first appearance.
pub fn extract_ends_with_extensions(src: &[char]) -> (r: Vec<String>)
    ensures
        string_views(r@) == listed_extensions(src@, Seq::empty()),
{
    let marker = chars_of("ends_with(\"");
    let mut extensions: Vec<String> = Vec::new();
    let mut rest: Vec<char> = slice_chars(src, 0, src.len());
    assert(src@.subrange(0, src@.len() as int) =~= src@);
    assert(string_views(extensions@) =~= Seq::<Seq<char>>::empty());
    loop
        invariant
            marker@ == ends_with_marker(),
            listed_extensions(src@, Seq::empty()) == listed_extensions(
                rest@,
                string_views(extensions@),
            ),
        decreases rest@.len(),
    {
        let found = find(rest.as_slice(), marker.as_slice());
        let idx = match found {
            Some(idx) => idx,
            None => return extensions,
        };
        proof {
            crate::text::lemma_find_from(rest@, marker@, 0);
        }
        let ml = marker.len();
        let rl = rest.len();
        assert(idx + ml <= rl);
        let after = slice_chars(rest.as_slice(), idx + ml, rl);
        let end = match find_char_pos(after.as_slice(), '"') {
            Some(end) => end,
            None => return extensions,
        };
        proof {
            crate::text::lemma_find_char_from(after@, '"', 0);
        }
        let lit = slice_chars(after.as_slice(), 0, end);
        let ghost found = string_views(extensions@);
        if lit.len() > 1 && lit[0] == '.' {
            let ext = slice_chars(lit.as_slice(), 1, lit.len());
            assert(ext@ =~= lit@.drop_first());
            if !contains_text(&extensions, ext.as_slice()) {
                extensions.push(string_from_chars(ext.as_slice()));
                assert(string_views(extensions@) =~= found.push(lit@.drop_first()));
            }
        }
        rest = slice_chars(after.as_slice(), end + 1, after.len());
    }
}

} // verus!

verus! {

/// The module declared by one line of `mod.rs`: the name in
/// `pub mod <name>;`, the line trimmed first.
pub open spec fn module_name_of(line: Seq<char>) -> Option<Seq<char>> {
    let t = trim(line);
    let p = "pub mod "@;
    if is_prefix(p, t) {
        let r = t.subrange(p.len() as int, t.len() as int);
        if r.len() > 0 && r.last() == ';' {
            Some(trim(r.drop_last()))
        } else {
            None
        }
    } else {
        None
    }
}

/// The modules declared by the lines, in order.
pub open spec fn names_in(ls: Seq<Seq<char>>) -> Seq<Seq<char>>
    decreases ls.len(),
{
    if ls.len() == 0 {
        Seq::empty()
    } else {
        names_in(ls.drop_last()) + match module_name_of(ls.last()) {
            Some(n) => seq![n],
            None => Seq::empty(),
        }
    }
}

/// The modules that `mod.rs` declares before its tests.
pub open spec fn module_names_of(mod_src: Seq<char>) -> Seq<Seq<char>> {
    names_in(lines(before_tests_of(mod_src)))
}

/// The names of the modules that the indexer directory's `mod.rs` declares.
pub fn module_names(mod_src: &str) -> (r: Vec<String>)
    ensures
        string_views(r@) == module_names_of(mod_src@),
{
    let all = chars_of(mod_src);
    let code = before_tests(all.as_slice());
    let ls = split_lines(code.as_slice());
    let prefix = chars_of("pub mod ");
    let mut names: Vec<String> = Vec::new();
    let mut i: usize = 0;
    assert(char_vec_views(ls@).take(0) =~= Seq::<Seq<char>>::empty());
    assert(string_views(names@) =~= Seq::<Seq<char>>::empty());
    while i < ls.len()
        invariant
            i <= ls@.len(),
            prefix@ == "pub mod "@,
            char_vec_views(ls@) == lines(before_tests_of(mod_src@)),
            string_views(names@) == names_in(char_vec_views(ls@).take(i as int)),
        decreases ls@.len() - i,
    {
        let ghost prev = string_views(names@);
        let ghost line = char_vec_views(ls@)[i as int];
        assert(char_vec_views(ls@).take(i + 1).drop_last() =~= char_vec_views(ls@).take(i as int));
        assert(char_vec_views(ls@).take(i + 1).last() == line);
        let t = trimmed(ls[i].as_slice());
        if starts_with(t.as_slice(), prefix.as_slice()) {
            let plen = prefix.len();
            let rest = slice_chars(t.as_slice(), plen, t.len());
            if rest.len() > 0 && rest[rest.len() - 1] == ';' {
                let stem = slice_chars(rest.as_slice(), 0, rest.len() - 1);
                assert(stem@ =~= rest@.drop_last());
                let name = trimmed(stem.as_slice());
                names.push(string_from_chars(name.as_slice()));
                assert(string_views(names@) =~= prev + seq![name@]);
            } else {
                assert(string_views(names@) =~= prev + Seq::<Seq<char>>::empty());
            }
        } else {
            assert(string_views(names@) =~= prev + Seq::<Seq<char>>::empty());
        }
        i = i + 1;
    }
    assert(char_vec_views(ls@).take(ls@.len() as int) =~= char_vec_views(ls@));
    names
}

} // verus!

verus! {

/// Why the indexer sources could not be turned into specs.
#[derive(Debug, Clone, Copy, PartialEq, Eq, Structural)]
pub enum SpecFault {
    /// A module has no string literal after `fn mime_type`.
    NoMimeType,
    /// A module tests no `ends_with(".ext")`.
    NoExtensions,
    /// No module gave any spec.
    NoModules,
}

/// The fault, with the module it was found in (empty for `NoModules`).
#[derive(Debug, Clone)]
pub struct SpecError {
    pub fault: SpecFault,
    pub module: String,
}

/// The (extension, MIME type) pairs of one module's source, or why it has
/// none.
pub open spec fn module_entries(src: Seq<char>) -> Result<Seq<(Seq<char>, Seq<char>)>, SpecFault> {
    let code = before_tests_of(src);
    match string_after(code, "fn mime_type"@) {
        None => Err(SpecFault::NoMimeType),
        Some(mime) => {
            let exts = listed_extensions(code, Seq::empty());
            if exts.len() == 0 {
                Err(SpecFault::NoExtensions)
            } else {
                Ok(exts.map_values(|e: Seq<char>| (e, mime)))
            }
        },
    }
}

/// The pairs of all modules, given as (name, source), in order; the first
/// faulty module stops the scan.
pub open spec fn all_entries(mods: Seq<(Seq<char>, Seq<char>)>) -> Result<
    Seq<(Seq<char>, Seq<char>)>,
    (SpecFault, Seq<char>),
>
    decreases mods.len(),
{
    if mods.len() == 0 {
        Ok(Seq::empty())
    } else {
        match all_entries(mods.drop_last()) {
            Err(e) => Err(e),
            Ok(prev) => match module_entries(mods.last().1) {
                Err(f) => Err((f, mods.last().0)),
                Ok(es) => Ok(prev + es),
            },
        }
    }
}

/// The pairs of all modules; none at all is a fault too.
pub open spec fn registry_entries(mods: Seq<(Seq<char>, Seq<char>)>) -> Result<
    Seq<(Seq<char>, Seq<char>)>,
    (SpecFault, Seq<char>),
> {
    match all_entries(mods) {
        Ok(es) => if es.len() == 0 {
            Err((SpecFault::NoModules, Seq::empty()))
        } else {
            Ok(es)
        },
        Err(e) => Err(e),
    }
}

/// A spec as its (extension, MIME type) pair.
pub open spec fn spec_pair(s: IndexerSpec) -> (Seq<char>, Seq<char>) {
    (s.extension@, s.mime_type@)
}

/// The modules' names and sources as views.
pub open spec fn module_views(mods: Seq<(String, String)>) -> Seq<(Seq<char>, Seq<char>)> {
    mods.map_values(|m: (String, String)| (m.0@, m.1@))
}

/// The specs of one module's source, or why it has none.
fn module_specs(src: &str) -> (r: Result<Vec<IndexerSpec>, SpecFault>)
    ensures
        match (r, module_entries(src@)) {
            (Ok(v), Ok(es)) => v@.map_values(|s: IndexerSpec| spec_pair(s)) == es,
            (Err(f), Err(g)) => f == g,
            _ => false,
        },
{
    let all = chars_of(src);
    let code = before_tests(all.as_slice());
    let marker = chars_of("fn mime_type");
    let mime = match extract_string_after(code.as_slice(), marker.as_slice()) {
        Some(m) => m,
        None => return Err(SpecFault::NoMimeType),
    };
    let exts = extract_ends_with_extensions(code.as_slice());
    if exts.len() == 0 {
        return Err(SpecFault::NoExtensions);
    }
    let ghost es = listed_extensions(code@, Seq::empty());
    let mut out: Vec<IndexerSpec> = Vec::new();
    let mut i: usize = 0;
    while i < exts.len()
        invariant
            i <= exts@.len(),
            string_views(exts@) == es,
            out@.len() == i,
            forall|j: int| 0 <= j < i ==> spec_pair(#[trigger] out@[j]) == (es[j], mime@),
        decreases exts@.len() - i,
    {
        assert(string_views(exts@)[i as int] == exts@[i as int]@);
        let e = string_from_chars(chars_of(exts[i].as_str()).as_slice());
        let m = string_from_chars(chars_of(mime.as_str()).as_slice());
        out.push(IndexerSpec { extension: e, mime_type: m });
        i = i + 1;
    }
    assert(out@.map_values(|s: IndexerSpec| spec_pair(s)) =~= es.map_values(
        |e: Seq<char>| (e, mime@),
    ));
    Ok(out)
}

/// The specs of every indexer module, given each module's name and
/// source in the order `mod.rs` declares them.
pub fn collect_specs(modules: &Vec<(String, String)>) -> (r: Result<Vec<IndexerSpec>, SpecError>)
    ensures
        match (r, registry_entries(module_views(modules@))) {
            (Ok(v), Ok(es)) => v@.map_values(|s: IndexerSpec| spec_pair(s)) == es,
            (Err(e), Err((f, n))) => e.fault == f && e.module@ == n,
            _ => false,
        },
{
    let ghost mv = module_views(modules@);
    let mut out: Vec<IndexerSpec> = Vec::new();
    let mut i: usize = 0;
    assert(mv.take(0) =~= Seq::<(Seq<char>, Seq<char>)>::empty());
    assert(out@.map_values(|s: IndexerSpec| spec_pair(s)) =~= Seq::<(Seq<char>, Seq<char>)>::empty());
    while i < modules.len()
        invariant
            i <= modules@.len(),
            mv == module_views(modules@),
            all_entries(mv.take(i as int)) == Ok::<_, (SpecFault, Seq<char>)>(
                out@.map_values(|s: IndexerSpec| spec_pair(s)),
            ),
        decreases modules@.len() - i,
    {
        assert(mv.take(i + 1).drop_last() =~= mv.take(i as int));
        assert(mv.take(i + 1).last() == (modules@[i as int].0@, modules@[i as int].1@));
        match module_specs(modules[i].1.as_str()) {
            Err(f) => {
                proof {
                    lemma_entries_stop(mv, i as int);
                }
                let name = string_from_chars(chars_of(modules[i].0.as_str()).as_slice());
                return Err(SpecError { fault: f, module: name });
            },
            Ok(v) => {
                let ghost before = out@;
                let mut v = v;
                out.append(&mut v);
                assert(out@.map_values(|s: IndexerSpec| spec_pair(s)) =~= before.map_values(
                    |s: IndexerSpec| spec_pair(s),
                ) + module_entries(modules@[i as int].1@)->Ok_0);
            },
        }
        i = i + 1;
    }
    assert(mv.take(modules@.len() as int) =~= mv);
    if out.len() == 0 {
        return Err(SpecError { fault: SpecFault::NoModules, module: String::new() });
    }
    Ok(out)
}

/// Once a module is faulty, the scan of every longer prefix reports it.
proof fn lemma_entries_stop(mv: Seq<(Seq<char>, Seq<char>)>, i: int)
    requires
        0 <= i < mv.len(),
        all_entries(mv.take(i)) is Ok,
        module_entries(mv[i].1) is Err,
    ensures
        forall|k: int|
            i < k <= mv.len() ==> all_entries(#[trigger] mv.take(k)) == Err::<
                Seq<(Seq<char>, Seq<char>)>,
                _,
            >((module_entries(mv[i].1)->Err_0, mv[i].0)),
{
    assert forall|k: int| i < k <= mv.len() implies all_entries(#[trigger] mv.take(k)) == Err::<
        Seq<(Seq<char>, Seq<char>)>,
        _,
    >((module_entries(mv[i].1)->Err_0, mv[i].0)) by {
        lemma_entries_stop_at(mv, i, k);
    }
}

/// `lemma_entries_stop` for one prefix length `k`.
proof fn lemma_entries_stop_at(mv: Seq<(Seq<char>, Seq<char>)>, i: int, k: int)
    requires
        0 <= i < k <= mv.len(),
        all_entries(mv.take(i)) is Ok,
        module_entries(mv[i].1) is Err,
    ensures
        all_entries(mv.take(k)) == Err::<Seq<(Seq<char>, Seq<char>)>, _>(
            (module_entries(mv[i].1)->Err_0, mv[i].0),
        ),
    decreases k - i,
{
    assert(mv.take(k).drop_last() =~= mv.take(k - 1));
    if k > i + 1 {
        lemma_entries_stop_at(mv, i, k - 1);
    } else {
        assert(mv.take(k).last() == mv[i]);
    }
}

/// Uninstalling clears the same extensions that installing registers:
/// both scripts open with the same `DELETE` statements over the same list.
pub proof fn lemma_uninstall_clears_installed(specs: Seq<IndexerSpec>)
    ensures
        is_prefix("BEGIN;\n"@ + delete_ext_rows(specs), install_sql(specs)),
        is_prefix("BEGIN;\n"@ + delete_ext_rows(specs), uninstall_sql(specs)),
{
    let p = "BEGIN;\n"@ + delete_ext_rows(specs);
    assert(install_sql(specs).subrange(0, p.len() as int) =~= p);
    assert(uninstall_sql(specs).subrange(0, p.len() as int) =~= p);
}

/// `whole` is `pre`, then `part`, then `post`.
pub open spec fn split_at(whole: Seq<char>, pre: Seq<char>, part: Seq<char>, post: Seq<char>) -> bool {
    whole =~= pre + part + post
}

/// `part` occurs in `whole`.
pub open spec fn has_part(whole: Seq<char>, part: Seq<char>) -> bool {
    exists|pre: Seq<char>, post: Seq<char>| #[trigger] split_at(whole, pre, part, post)
}

/// A part of `r` is a part of anything that ends or starts with `r`.
proof fn lemma_has_part_extend(x: Seq<char>, r: Seq<char>, y: Seq<char>, part: Seq<char>)
    requires
        has_part(r, part),
    ensures
        has_part(x + r, part),
        has_part(r + y, part),
{
    let (pre, post) = choose|pre: Seq<char>, post: Seq<char>| #[trigger] split_at(r, pre, part, post);
    assert(split_at(x + r, x + pre, part, post));
    assert(split_at(r + y, pre, part, post + y));
}

/// Every spec's row is among the rows.
pub proof fn lemma_rows_contain(
    specs: Seq<IndexerSpec>,
    row: spec_fn(IndexerSpec) -> Seq<char>,
    k: int,
)
    requires
        0 <= k < specs.len(),
    ensures
        has_part(rows(specs, row), row(specs[k])),
    decreases specs.len(),
{
    let init = specs.drop_last();
    if k == specs.len() - 1 {
        assert(split_at(rows(specs, row), rows(init, row), row(specs[k]), Seq::<char>::empty()));
    } else {
        assert(init[k] == specs[k]);
        lemma_rows_contain(init, row, k);
        lemma_has_part_extend(Seq::empty(), rows(init, row), row(specs.last()), row(specs[k]));
    }
}

/// The install script registers every indexer: the MIME type and
/// extension rows, the launcher's association with the MIME type and the
/// extractor's association with the extension.
#[verifier::spinoff_prover]
pub proof fn lemma_install_registers_every_spec(specs: Seq<IndexerSpec>, k: int)
    requires
        0 <= k < specs.len(),
    ensures
        has_part(install_sql(specs), type_rows(specs[k])),
        has_part(install_sql(specs), launcher_row(specs[k])),
        has_part(install_sql(specs), extractor_row(specs[k])),
{
    let f1 = |s: IndexerSpec| type_rows(s);
    let f2 = |s: IndexerSpec| launcher_row(s);
    let f3 = |s: IndexerSpec| extractor_row(s);
    let a = "BEGIN;\n"@ + delete_ext_rows(specs);
    let r1 = rows(specs, f1);
    let r2 = rows(specs, f2);
    let r3 = rows(specs, f3);
    let lb = launcher_block();
    let eb = extractor_block();
    let c = "COMMIT;\n"@;
    let e = Seq::<char>::empty();
    assert(install_sql(specs) == a + r1 + lb + r2 + eb + r3 + c);
    lemma_rows_contain(specs, f1, k);
    lemma_has_part_extend(a, r1, e, f1(specs[k]));
    lemma_has_part_extend(e, a + r1, lb, f1(specs[k]));
    lemma_has_part_extend(e, a + r1 + lb, r2, f1(specs[k]));
    lemma_has_part_extend(e, a + r1 + lb + r2, eb, f1(specs[k]));
    lemma_has_part_extend(e, a + r1 + lb + r2 + eb, r3, f1(specs[k]));
    lemma_has_part_extend(e, a + r1 + lb + r2 + eb + r3, c, f1(specs[k]));
    lemma_rows_contain(specs, f2, k);
    lemma_has_part_extend(a + r1 + lb, r2, e, f2(specs[k]));
    lemma_has_part_extend(e, a + r1 + lb + r2, eb, f2(specs[k]));
    lemma_has_part_extend(e, a + r1 + lb + r2 + eb, r3, f2(specs[k]));
    lemma_has_part_extend(e, a + r1 + lb + r2 + eb + r3, c, f2(specs[k]));
    lemma_rows_contain(specs, f3, k);
    lemma_has_part_extend(a + r1 + lb + r2 + eb, r3, e, f3(specs[k]));
    lemma_has_part_extend(e, a + r1 + lb + r2 + eb + r3, c, f3(specs[k]));
}

/// `p` and then, later, `q` occur in `whole`.
pub open spec fn parts_in_order(whole: Seq<char>, p: Seq<char>, q: Seq<char>) -> bool {
    exists|pre: Seq<char>, mid: Seq<char>, post: Seq<char>|
        #[trigger] split_at(whole, pre + p + mid, q, post)
}

/// Parts in order stay in order inside a longer text.
proof fn lemma_parts_in_order_extend(x: Seq<char>, r: Seq<char>, y: Seq<char>, p: Seq<char>, q: Seq<char>)
    requires
        parts_in_order(r, p, q),
    ensures
        parts_in_order(x + r + y, p, q),
{
    let (pre, mid, post) = choose|pre: Seq<char>, mid: Seq<char>, post: Seq<char>|
        #[trigger] split_at(r, pre + p + mid, q, post);
    assert(split_at(x + r + y, (x + pre) + p + mid, q, post + y));
}

/// The rows of two specs come in the order of the specs.
pub proof fn lemma_rows_in_order(
    specs: Seq<IndexerSpec>,
    row: spec_fn(IndexerSpec) -> Seq<char>,
    i: int,
    j: int,
)
    requires
        0 <= i < j < specs.len(),
    ensures
        parts_in_order(rows(specs, row), row(specs[i]), row(specs[j])),
    decreases specs.len(),
{
    let init = specs.drop_last();
    assert(init[i] == specs[i]);
    if j == specs.len() - 1 {
        lemma_rows_contain(init, row, i);
        let (pre, post) = choose|pre: Seq<char>, post: Seq<char>|
            #[trigger] split_at(rows(init, row), pre, row(init[i]), post);
        assert(split_at(rows(specs, row), pre + row(specs[i]) + post, row(specs[j]), Seq::empty()));
    } else {
        assert(init[j] == specs[j]);
        lemma_rows_in_order(init, row, i, j);
        lemma_parts_in_order_extend(
            Seq::empty(),
            rows(init, row),
            row(specs.last()),
            row(specs[i]),
            row(specs[j]),
        );
        assert(Seq::<char>::empty() + rows(init, row) + row(specs.last()) =~= rows(specs, row));
    }
}

/// The install script registers the specs in their order (for each kind
/// of row, a spec's row comes before the next spec's) and ends with
/// `COMMIT;`.
#[verifier::spinoff_prover]
#[verifier::rlimit(40)]
pub proof fn lemma_install_rows_in_order(specs: Seq<IndexerSpec>, i: int, j: int)
    requires
        0 <= i < j < specs.len(),
    ensures
        parts_in_order(install_sql(specs), type_rows(specs[i]), type_rows(specs[j])),
        parts_in_order(install_sql(specs), launcher_row(specs[i]), launcher_row(specs[j])),
        parts_in_order(install_sql(specs), extractor_row(specs[i]), extractor_row(specs[j])),
        crate::text::is_suffix("COMMIT;\n"@, install_sql(specs)),
{
    let f1 = |s: IndexerSpec| type_rows(s);
    let f2 = |s: IndexerSpec| launcher_row(s);
    let f3 = |s: IndexerSpec| extractor_row(s);
    let a = "BEGIN;\n"@ + delete_ext_rows(specs);
    let r1 = rows(specs, f1);
    let r2 = rows(specs, f2);
    let r3 = rows(specs, f3);
    let lb = launcher_block();
    let eb = extractor_block();
    let c = "COMMIT;\n"@;
    let w = install_sql(specs);
    assert(w == a + r1 + lb + r2 + eb + r3 + c);
    lemma_rows_in_order(specs, f1, i, j);
    lemma_parts_in_order_extend(a, r1, lb + r2 + eb + r3 + c, f1(specs[i]), f1(specs[j]));
    assert(a + r1 + (lb + r2 + eb + r3 + c) =~= w);
    lemma_rows_in_order(specs, f2, i, j);
    lemma_parts_in_order_extend(a + r1 + lb, r2, eb + r3 + c, f2(specs[i]), f2(specs[j]));
    assert(a + r1 + lb + r2 + (eb + r3 + c) =~= w);
    lemma_rows_in_order(specs, f3, i, j);
    lemma_parts_in_order_extend(a + r1 + lb + r2 + eb, r3, c, f3(specs[i]), f3(specs[j]));
    assert(w.subrange(w.len() - c.len(), w.len() as int) =~= c);
}

/// Each part of a joined list occurs in it.
pub proof fn lemma_joined_contains(parts: Seq<Seq<char>>, sep: Seq<char>, k: int)
    requires
        0 <= k < parts.len(),
    ensures
        has_part(joined(parts, sep), parts[k]),
    decreases parts.len(),
{
    if parts.len() == 1 {
        assert(split_at(joined(parts, sep), Seq::empty(), parts[k], Seq::empty()));
    } else if k == parts.len() - 1 {
        assert(split_at(joined(parts, sep), joined(parts.drop_last(), sep) + sep, parts[k], Seq::empty()));
    } else {
        assert(parts.drop_last()[k] == parts[k]);
        lemma_joined_contains(parts.drop_last(), sep, k);
        lemma_has_part_extend(Seq::empty(), joined(parts.drop_last(), sep), sep + parts.last(), parts[k]);
        assert(joined(parts.drop_last(), sep) + (sep + parts.last()) =~= joined(parts, sep));
    }
}

/// Uninstalling removes what installing adds. The install script inserts
/// rows only for the specs' extensions and for the launcher's and the
/// extractor's handler ids; the uninstall script deletes the `mimetypes`
/// and `extenstions` rows of a list that holds every spec's extension, and
/// the `associations`, `properties` and `handlerIds` rows of both handlers.
#[verifier::spinoff_prover]
#[verifier::rlimit(60)]
pub proof fn lemma_uninstall_undoes_install(specs: Seq<IndexerSpec>, k: int)
    requires
        0 <= k < specs.len(),
    ensures
        has_part(ext_list(specs), "'"@ + specs[k].extension@ + "'"@),
        has_part(
            uninstall_sql(specs),
            "DELETE FROM mimetypes WHERE ext IN ("@ + ext_list(specs) + ");\n"@,
        ),
        has_part(
            uninstall_sql(specs),
            "DELETE FROM extenstions WHERE ext IN ("@ + ext_list(specs) + ");\n\n"@,
        ),
        has_part(
            uninstall_sql(specs),
            "DELETE FROM associations WHERE handlerId = 'com.notmarek.kompanion.launcher';\n"@,
        ),
        has_part(
            uninstall_sql(specs),
            "DELETE FROM properties WHERE handlerId = 'com.notmarek.kompanion.launcher';\n"@,
        ),
        has_part(
            uninstall_sql(specs),
            "DELETE FROM handlerIds WHERE handlerId = 'com.notmarek.kompanion.launcher';\n\n"@,
        ),
        has_part(
            uninstall_sql(specs),
            "DELETE FROM associations WHERE handlerId = 'com.notmarek.kompanion.extractor';\n"@,
        ),
        has_part(
            uninstall_sql(specs),
            "DELETE FROM properties WHERE handlerId = 'com.notmarek.kompanion.extractor';\n"@,
        ),
        has_part(
            uninstall_sql(specs),
            "DELETE FROM handlerIds WHERE handlerId = 'com.notmarek.kompanion.extractor';\n"@,
        ),
{
    assert(quoted_exts(specs)[k] == "'"@ + specs[k].extension@ + "'"@);
    lemma_joined_contains(quoted_exts(specs), ", "@, k);
    let b = "BEGIN;\n"@;
    let m = "DELETE FROM mimetypes WHERE ext IN ("@ + ext_list(specs) + ");\n"@;
    let x = "DELETE FROM extenstions WHERE ext IN ("@ + ext_list(specs) + ");\n\n"@;
    let h0 = "-- Remove associations and properties for the launcher\n"@;
    let l1 = "DELETE FROM associations WHERE handlerId = 'com.notmarek.kompanion.launcher';\n"@;
    let l2 = "DELETE FROM properties WHERE handlerId = 'com.notmarek.kompanion.launcher';\n"@;
    let l3 = "DELETE FROM handlerIds WHERE handlerId = 'com.notmarek.kompanion.launcher';\n\n"@;
    let h1 = "-- Remove associations and properties for the extractor\n"@;
    let e1 = "DELETE FROM associations WHERE handlerId = 'com.notmarek.kompanion.extractor';\n"@;
    let e2 = "DELETE FROM properties WHERE handlerId = 'com.notmarek.kompanion.extractor';\n"@;
    let e3 = "DELETE FROM handlerIds WHERE handlerId = 'com.notmarek.kompanion.extractor';\n"@;
    let c = "COMMIT;\n"@;
    let w = uninstall_sql(specs);
    assert(w == b + (m + x) + h0 + l1 + l2 + l3 + h1 + e1 + e2 + e3 + c);
    assert(split_at(w, b, m, x + h0 + l1 + l2 + l3 + h1 + e1 + e2 + e3 + c));
    assert(split_at(w, b + m, x, h0 + l1 + l2 + l3 + h1 + e1 + e2 + e3 + c));
    assert(split_at(w, b + m + x + h0, l1, l2 + l3 + h1 + e1 + e2 + e3 + c));
    assert(split_at(w, b + m + x + h0 + l1, l2, l3 + h1 + e1 + e2 + e3 + c));
    assert(split_at(w, b + m + x + h0 + l1 + l2, l3, h1 + e1 + e2 + e3 + c));
    assert(split_at(w, b + m + x + h0 + l1 + l2 + l3 + h1, e1, e2 + e3 + c));
    assert(split_at(w, b + m + x + h0 + l1 + l2 + l3 + h1 + e1, e2, e3 + c));
    assert(split_at(w, b + m + x + h0 + l1 + l2 + l3 + h1 + e1 + e2, e3, c));
}

} // verus!

verus! {

/// `w` holds no `c`.
pub open spec fn free_of(w: Seq<char>, c: char) -> bool {
    forall|i: int| 0 <= i < w.len() ==> w[i] != c
}

/// A text free of a character that `part` holds does not hold `part`.
proof fn lemma_free_of_part(w: Seq<char>, part: Seq<char>, j: int)
    requires
        0 <= j < part.len(),
        free_of(w, part[j]),
    ensures
        !has_part(w, part),
{
    if has_part(w, part) {
        let (pre, post) = choose|pre: Seq<char>, post: Seq<char>| #[trigger] split_at(w, pre, part, post);
        assert(w[pre.len() + j] == part[j]);
    }
}

/// A part of `x + y` that does not hold the character at position `q`, the
/// last of `x` or the first of `y`, is a part of `x` or of `y`.
proof fn lemma_guarded_split(x: Seq<char>, y: Seq<char>, part: Seq<char>, q: int)
    requires
        has_part(x + y, part),
        part.len() > 0,
        (x.len() > 0 && q == x.len() - 1) || (y.len() > 0 && q == x.len()),
        free_of(part, (x + y)[q]),
    ensures
        has_part(x, part) || has_part(y, part),
{
    let w = x + y;
    let (pre, post) = choose|pre: Seq<char>, post: Seq<char>| #[trigger] split_at(w, pre, part, post);
    let a = pre.len() as int;
    let n = part.len() as int;
    assert(w =~= pre + part + post);
    if a + n <= x.len() {
        let rest = x.subrange(a + n, x.len() as int);
        assert forall|i: int| 0 <= i < x.len() implies #[trigger] x[i] == (pre + part + rest)[i] by {
            assert(x[i] == w[i]);
        }
        assert(x =~= pre + part + rest);
        assert(split_at(x, pre, part, rest));
    } else if a >= x.len() {
        let front = w.subrange(x.len() as int, a);
        assert forall|i: int| 0 <= i < y.len() implies #[trigger] y[i] == (front + part + post)[i] by {
            assert(y[i] == w[x.len() + i]);
        }
        assert(y =~= front + part + post);
        assert(split_at(y, front, part, post));
    } else {
        assert(w[q] == part[q - a]);
    }
}

/// `INSERT`.
pub open spec fn insert_word() -> Seq<char> {
    "INSERT"@
}

/// The delimiters round the extensions are not in `INSERT`, and `S` is.
proof fn lemma_insert_word()
    ensures
        insert_word().len() == 6,
        insert_word()[2] == 'S',
        free_of(insert_word(), '\''),
        free_of(insert_word(), ','),
        free_of(insert_word(), '('),
        free_of(insert_word(), ')'),
{
    reveal_strlit("INSERT");
}

/// A quoted extension holds `INSERT` only when the extension does.
proof fn lemma_quoted_no_insert(ext: Seq<char>)
    requires
        !has_part(ext, insert_word()),
    ensures
        !has_part("'"@ + ext + "'"@, insert_word()),
{
    reveal_strlit("'");
    lemma_insert_word();
    let q = "'"@;
    assert(q.len() == 1 && q[0] == '\'');
    if has_part(q + ext + q, insert_word()) {
        assert((q + ext + q)[(q + ext).len() as int] == '\'');
        lemma_guarded_split(q + ext, q, insert_word(), (q + ext).len() as int);
        if has_part(q + ext, insert_word()) {
            assert((q + ext)[0] == '\'');
            lemma_guarded_split(q, ext, insert_word(), 0);
            assert(!has_part(q, insert_word())) by {
                lemma_free_of_part(q, insert_word(), 2);
            }
        }
        assert(!has_part(q, insert_word())) by {
            lemma_free_of_part(q, insert_word(), 2);
        }
    }
}

/// The extension list holds `INSERT` only when an extension does.
proof fn lemma_ext_list_no_insert(specs: Seq<IndexerSpec>)
    requires
        forall|k: int| 0 <= k < specs.len() ==> !has_part(#[trigger] specs[k].extension@, insert_word()),
    ensures
        !has_part(ext_list(specs), insert_word()),
    decreases specs.len(),
{
    lemma_insert_word();
    let parts = quoted_exts(specs);
    let sep = ", "@;
    reveal_strlit(", ");
    assert(sep.len() == 2 && sep[0] == ',');
    if specs.len() == 0 {
        assert(ext_list(specs).len() == 0);
        assert(free_of(ext_list(specs), 'S'));
        lemma_free_of_part(ext_list(specs), insert_word(), 2);
    } else {
        let last = specs.last();
        lemma_quoted_no_insert(last.extension@);
        assert(parts.last() == "'"@ + last.extension@ + "'"@);
        if specs.len() == 1 {
            assert(ext_list(specs) == parts[0]);
        } else {
            let rest = specs.drop_last();
            assert(quoted_exts(rest) =~= parts.drop_last());
            assert forall|k: int| 0 <= k < rest.len() implies !has_part(
                #[trigger] rest[k].extension@,
                insert_word(),
            ) by {
                assert(rest[k] == specs[k]);
            }
            lemma_ext_list_no_insert(rest);
            let front = joined(parts.drop_last(), sep);
            let l = parts.last();
            reveal_strlit("'");
            assert(l[0] == '\'');
            assert(ext_list(specs) == front + sep + l);
            if has_part(front + sep + l, insert_word()) {
                assert((front + sep + l)[(front + sep).len() as int] == '\'');
                lemma_guarded_split(front + sep, l, insert_word(), (front + sep).len() as int);
                if has_part(front + sep, insert_word()) {
                    assert((front + sep)[front.len() as int] == ',');
                    lemma_guarded_split(front, sep, insert_word(), front.len() as int);
                    assert(free_of(sep, 'S'));
                    lemma_free_of_part(sep, insert_word(), 2);
                }
            }
        }
    }
}

/// The uninstall script as a whole: it begins with `BEGIN;` and the two
/// `DELETE` statements over the quoted, comma-separated extensions, ends
/// with `COMMIT;`, and, when no extension holds the word `INSERT`, holds no
/// `INSERT` at all: it only deletes.
#[verifier::spinoff_prover]
#[verifier::rlimit(60)]
pub proof fn lemma_uninstall_only_deletes(specs: Seq<IndexerSpec>)
    ensures
        uninstall_sql(specs).take(
            ("BEGIN;\n"@ + delete_ext_rows(specs)).len() as int,
        ) == "BEGIN;\n"@ + delete_ext_rows(specs),
        uninstall_sql(specs).skip(uninstall_sql(specs).len() - "COMMIT;\n"@.len()) == "COMMIT;\n"@,
        (forall|k: int| 0 <= k < specs.len() ==> !has_part(#[trigger] specs[k].extension@, insert_word()))
            ==> !has_part(uninstall_sql(specs), insert_word()),
{
    let l = ext_list(specs);
    let f1 = "BEGIN;\n"@ + "DELETE FROM mimetypes WHERE ext IN ("@;
    let f2 = ");\n"@ + "DELETE FROM extenstions WHERE ext IN ("@;
    let tail = "-- Remove associations and properties for the launcher\n"@
        + "DELETE FROM associations WHERE handlerId = 'com.notmarek.kompanion.launcher';\n"@
        + "DELETE FROM properties WHERE handlerId = 'com.notmarek.kompanion.launcher';\n"@
        + "DELETE FROM handlerIds WHERE handlerId = 'com.notmarek.kompanion.launcher';\n\n"@
        + "-- Remove associations and properties for the extractor\n"@
        + "DELETE FROM associations WHERE handlerId = 'com.notmarek.kompanion.extractor';\n"@
        + "DELETE FROM properties WHERE handlerId = 'com.notmarek.kompanion.extractor';\n"@
        + "DELETE FROM handlerIds WHERE handlerId = 'com.notmarek.kompanion.extractor';\n"@;
    let f3 = ");\n\n"@ + tail + "COMMIT;\n"@;
    let w = uninstall_sql(specs);
    let head = "BEGIN;\n"@ + delete_ext_rows(specs);
    assert(w == head + (tail + "COMMIT;\n"@));
    assert(w.take(head.len() as int) =~= head);
    assert(w.skip(w.len() - "COMMIT;\n"@.len()) =~= "COMMIT;\n"@);
    if forall|k: int| 0 <= k < specs.len() ==> !has_part(#[trigger] specs[k].extension@, insert_word()) {
        lemma_ext_list_no_insert(specs);
        lemma_insert_word();
        assert(w == f1 + l + f2 + l + f3);
        reveal_strlit("BEGIN;\n");
        reveal_strlit("DELETE FROM mimetypes WHERE ext IN (");
        reveal_strlit(");\n");
        reveal_strlit("DELETE FROM extenstions WHERE ext IN (");
        reveal_strlit(");\n\n");
        reveal_strlit("-- Remove associations and properties for the launcher\n");
        reveal_strlit("DELETE FROM associations WHERE handlerId = 'com.notmarek.kompanion.launcher';\n");
        reveal_strlit("DELETE FROM properties WHERE handlerId = 'com.notmarek.kompanion.launcher';\n");
        reveal_strlit("DELETE FROM handlerIds WHERE handlerId = 'com.notmarek.kompanion.launcher';\n\n");
        reveal_strlit("-- Remove associations and properties for the extractor\n");
        reveal_strlit("DELETE FROM associations WHERE handlerId = 'com.notmarek.kompanion.extractor';\n");
        reveal_strlit("DELETE FROM properties WHERE handlerId = 'com.notmarek.kompanion.extractor';\n");
        reveal_strlit("DELETE FROM handlerIds WHERE handlerId = 'com.notmarek.kompanion.extractor';\n");
        reveal_strlit("COMMIT;\n");
        assert(free_of(f1, 'S'));
        assert(free_of(f2, 'S'));
        assert(free_of(f3, 'S'));
        assert(f1[f1.len() - 1] == '(');
        assert(f2[0] == ')');
        assert(f2[f2.len() - 1] == '(');
        assert(f3[0] == ')');
        lemma_free_of_part(f1, insert_word(), 2);
        lemma_free_of_part(f2, insert_word(), 2);
        lemma_free_of_part(f3, insert_word(), 2);
        let a = f1 + l;
        let b = a + f2;
        let c = b + l;
        if has_part(c + f3, insert_word()) {
            assert((c + f3)[c.len() as int] == ')');
            lemma_guarded_split(c, f3, insert_word(), c.len() as int);
            if has_part(c, insert_word()) {
                assert(c[b.len() - 1] == '(');
                lemma_guarded_split(b, l, insert_word(), b.len() - 1);
                if has_part(b, insert_word()) {
                    assert(b[a.len() as int] == ')');
                    lemma_guarded_split(a, f2, insert_word(), a.len() as int);
                    if has_part(a, insert_word()) {
                        assert(a[f1.len() - 1] == '(');
                        lemma_guarded_split(f1, l, insert_word(), f1.len() - 1);
                    }
                }
            }
        }
    }
}

} // verus!
