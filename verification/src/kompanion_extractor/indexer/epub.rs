//! EPUB books: the package metadata gives name, author and the extra
//! catalog fields; the cover is the image the package declares.
use vstd::prelude::*;
use vstd::string::*;
use crate::text::{
    after_last_dot_of, concat, ends_with, is_prefix, is_suffix, join, joined, lowercase_of, opt_seq,
    string_views, to_lowercase, after_last_dot,
};
use crate::kompanion_core::indexer::{FileIndexer, IndexMetadata, MetadataMap};

verus! {

/// The package metadata of an EPUB, as far as the indexer reads it.
pub struct EpubMetadata {
    pub title: String,
    pub author: String,
    pub language: String,
    pub date: Option<String>,
    pub publisher: Option<String>,
    pub rights: Option<String>,
    pub description: Option<String>,
    pub subjects: Vec<String>,
    pub identifier: Option<String>,
}

/// The package metadata that the `epub_stream` crate reads from the EPUB
/// whose bytes are `bytes`; `None` when it cannot parse them.
pub uninterp spec fn epub_package(bytes: Seq<u8>) -> Option<EpubMetadata>;

/// `EpubBookBuilder::parse_reader` over the bytes, then `metadata()` of the
/// summary, its fields moved out; the parse error's text when it fails.
#[verifier::external_body]
fn parse_epub_package(bytes: &[u8]) -> (r: Result<EpubMetadata, String>)
    ensures
        match r {
            Ok(m) => epub_package(bytes@) == Some(m),
            Err(_) => epub_package(bytes@) is None,
        },
{
    match epub_stream::book::EpubBookBuilder::new().parse_reader(std::io::Cursor::new(bytes)) {
        Ok(summary) => {
            let m = summary.metadata();
            Ok(EpubMetadata {
                title: m.title.clone(), author: m.author.clone(), language: m.language.clone(),
                date: m.date.clone(), publisher: m.publisher.clone(), rights: m.rights.clone(),
                description: m.description.clone(), subjects: m.subjects.clone(),
                identifier: m.identifier.clone(),
            })
        },
        Err(e) => Err(e.to_string()),
    }
}

/// The text, unless it is empty.
pub open spec fn filled(s: Seq<char>) -> Option<Seq<char>> {
    if s.len() == 0 {
        None
    } else {
        Some(s)
    }
}

/// The optional text, unless it is missing or empty.
pub open spec fn filled_opt(o: Option<String>) -> Option<Seq<char>> {
    match o {
        Some(s) => filled(s@),
        None => None,
    }
}

/// `m` with `key` set when `v` is present.
pub open spec fn put(m: Map<Seq<char>, Seq<char>>, key: Seq<char>, v: Option<Seq<char>>) -> Map<
    Seq<char>,
    Seq<char>,
> {
    match v {
        Some(x) => m.insert(key, x),
        None => m,
    }
}

/// The extra catalog fields of an EPUB.
pub open spec fn epub_extra(meta: EpubMetadata) -> Map<Seq<char>, Seq<char>> {
    let m1 = put(Map::empty(), "description"@, filled_opt(meta.description));
    let m2 = put(m1, "publisher"@, filled_opt(meta.publisher));
    let m3 = put(m2, "identifier"@, filled_opt(meta.identifier));
    let m4 = put(m3, "publicationDate"@, filled_opt(meta.date));
    let m5 = put(m4, "rights"@, filled_opt(meta.rights));
    let m6 = put(m5, "language"@, filled(meta.language@));
    put(
        m6,
        "subjects"@,
        if meta.subjects.len() == 0 {
            None
        } else {
            Some(joined(string_views(meta.subjects@), ", "@))
        },
    )
}

/// The keys an EPUB's extra fields can have.
pub open spec fn epub_field_key(k: Seq<char>) -> bool {
    ||| k == "description"@
    ||| k == "publisher"@
    ||| k == "identifier"@
    ||| k == "publicationDate"@
    ||| k == "rights"@
    ||| k == "language"@
    ||| k == "subjects"@
}

/// `m` with `key` set when `v` is present keeps its keys among `epub_field_key`
/// and its values filled, when `m` did and `key` is such a key.
proof fn lemma_put_filled(m: Map<Seq<char>, Seq<char>>, key: Seq<char>, v: Option<Seq<char>>)
    requires
        epub_field_key(key),
        v matches Some(x) ==> x.len() > 0,
        forall|k: Seq<char>| #[trigger] m.contains_key(k) ==> epub_field_key(k) && m[k].len() > 0,
    ensures
        forall|k: Seq<char>| #[trigger] put(m, key, v).contains_key(k) ==> epub_field_key(k) && put(m, key, v)[k].len() > 0,
{
}

/// Parts joined with a non-empty separator give empty text only for no
/// parts or a single empty part.
proof fn lemma_joined_empty(parts: Seq<Seq<char>>, sep: Seq<char>)
    requires
        sep.len() > 0,
        parts.len() > 0,
        joined(parts, sep).len() == 0,
    ensures
        parts.len() == 1,
        parts[0].len() == 0,
{
    if parts.len() > 1 {
        assert(joined(parts, sep) == joined(parts.drop_last(), sep) + sep + parts.last());
    }
}

/// The extra fields of an EPUB are among description, publisher,
/// identifier, publicationDate, rights, language and subjects, and none is
/// empty, but for subjects when they are a single empty subject.
pub proof fn lemma_epub_extra_fields(meta: EpubMetadata)
    ensures
        forall|k: Seq<char>| #[trigger] epub_extra(meta).contains_key(k) ==> epub_field_key(k),
        forall|k: Seq<char>|
            #[trigger] epub_extra(meta).contains_key(k) && epub_extra(meta)[k].len() == 0 ==> k == "subjects"@
                && meta.subjects@.len() == 1 && meta.subjects@[0]@.len() == 0,
{
    let m1 = put(Map::empty(), "description"@, filled_opt(meta.description));
    let m2 = put(m1, "publisher"@, filled_opt(meta.publisher));
    let m3 = put(m2, "identifier"@, filled_opt(meta.identifier));
    let m4 = put(m3, "publicationDate"@, filled_opt(meta.date));
    let m5 = put(m4, "rights"@, filled_opt(meta.rights));
    let m6 = put(m5, "language"@, filled(meta.language@));
    lemma_put_filled(Map::empty(), "description"@, filled_opt(meta.description));
    lemma_put_filled(m1, "publisher"@, filled_opt(meta.publisher));
    lemma_put_filled(m2, "identifier"@, filled_opt(meta.identifier));
    lemma_put_filled(m3, "publicationDate"@, filled_opt(meta.date));
    lemma_put_filled(m4, "rights"@, filled_opt(meta.rights));
    lemma_put_filled(m5, "language"@, filled(meta.language@));
    let views = string_views(meta.subjects@);
    if meta.subjects.len() > 0 {
        let j = joined(views, ", "@);
        assert(", "@.len() == 2) by {
            reveal_strlit(", ");
        }
        if j.len() == 0 {
            lemma_joined_empty(views, ", "@);
        }
        assert(views[0] == meta.subjects@[0]@);
    }
    assert(epub_extra(meta) == put(
        m6,
        "subjects"@,
        if meta.subjects.len() == 0 {
            None
        } else {
            Some(joined(views, ", "@))
        },
    ));
}

/// The string, unless it is empty.
fn filled_string(s: &String) -> (r: Option<String>)
    ensures
        opt_seq(r) == filled(s@),
{
    if s.as_str().is_empty() {
        None
    } else {
        Some(s.clone())
    }
}

/// The optional string, unless it is missing or empty.
fn filled_opt_string(o: &Option<String>) -> (r: Option<String>)
    ensures
        opt_seq(r) == filled_opt(*o),
{
    match o {
        Some(s) => filled_string(s),
        None => None,
    }
}

/// Sets `key` when `value` is present.
fn put_present(m: &mut MetadataMap, key: &str, value: Option<String>)
    ensures
        final(m)@ == put(old(m)@, key@, opt_seq(value)),
{
    if let Some(v) = value {
        m.insert(String::from_str(key), v);
    }
}

/// The extension of the cover file: the text after the last dot of the
/// cover's href, in lower case.
pub open spec fn cover_extension_spec(href: Seq<char>) -> Seq<char> {
    lowercase_of(after_last_dot(href))
}

/// The extension of the cover file for the cover's href.
pub fn cover_extension(href: &str) -> (r: String)
    ensures
        r@ == cover_extension_spec(href@),
{
    let t = after_last_dot_of(href);
    to_lowercase(t.as_str())
}

/// Indexer for EPUB books.
pub struct EpubIndexer;

impl FileIndexer for EpubIndexer {
    open spec fn handles(&self, filename: Seq<char>) -> bool {
        is_suffix(".epub"@, filename)
    }

    open spec fn mime(&self) -> Seq<char> {
        "application/epub+zip"@
    }

    open spec fn content_type(&self) -> Seq<char> {
        "EBOK"@
    }

    fn can_handle(&self, filename: &str) -> (r: bool) {
        ends_with(filename, ".epub")
    }

    fn mime_type(&self) -> (r: &'static str) {
        "application/epub+zip"
    }

    fn cde_type(&self) -> (r: &'static str) {
        "EBOK"
    }
}

impl EpubIndexer {
    /// Name, author and extra fields of the EPUB whose bytes are `bytes`;
    /// an error beginning `Failed to parse EPUB: ` when they do not parse.
    pub fn extract_metadata(&self, bytes: &[u8]) -> (r: Result<IndexMetadata, String>)
        ensures
            match epub_package(bytes@) {
                Some(meta) => r matches Ok(m) && epub_index_metadata(m, meta),
                None => r matches Err(e) && is_prefix("Failed to parse EPUB: "@, e@),
            },
    {
        match parse_epub_package(bytes) {
            Ok(meta) => Ok(self.metadata_of(&meta)),
            Err(e) => {
                let msg = concat("Failed to parse EPUB: ", e.as_str());
                assert(msg@.subrange(0, "Failed to parse EPUB: "@.len() as int) =~= "Failed to parse EPUB: "@);
                Err(msg)
            },
        }
    }

    /// Name, author and extra fields from the package metadata; empty values
    /// are left out.
    pub fn metadata_of(&self, meta: &EpubMetadata) -> (m: IndexMetadata)
        ensures
            epub_index_metadata(m, *meta),
    {
        let name = filled_string(&meta.title);
        let author = filled_string(&meta.author);
        let mut extra = MetadataMap::new();
        put_present(&mut extra, "description", filled_opt_string(&meta.description));
        put_present(&mut extra, "publisher", filled_opt_string(&meta.publisher));
        put_present(&mut extra, "identifier", filled_opt_string(&meta.identifier));
        put_present(&mut extra, "publicationDate", filled_opt_string(&meta.date));
        put_present(&mut extra, "rights", filled_opt_string(&meta.rights));
        put_present(&mut extra, "language", filled_string(&meta.language));
        let subjects = if meta.subjects.len() == 0 {
            None
        } else {
            Some(join(&meta.subjects, ", "))
        };
        put_present(&mut extra, "subjects", subjects);
        IndexMetadata { name, author, icon: None, extra }
    }
}

/// The index metadata of an EPUB's package metadata: the title as name and
/// the author, each unless empty, no icon, and `epub_extra` as extra fields.
pub open spec fn epub_index_metadata(m: IndexMetadata, meta: EpubMetadata) -> bool {
    &&& opt_seq(m.name) == filled(meta.title@)
    &&& opt_seq(m.author) == filled(meta.author@)
    &&& m.icon is None
    &&& m.extra@ == epub_extra(meta)
}

} // verus!
