//! FictionBook books (`.fb2`, `.fbz`, `.fb2.zip`): the title information
//! gives name, author, language and series; the cover is an inline binary.
use vstd::prelude::*;
use vstd::string::*;
use base64::Engine;
use crate::text::{
    chars_of, chars_eq_ignore_ascii_case, concat, ends_with, eq_ignore_ascii_case, is_suffix,
    is_white, lowercase_of, non_empty, non_empty_text, opt_seq, push_char, remove_whitespace,
    slice_chars, str_equal, string_from_chars, to_lowercase, trim, without_white, after_last_dot,
    after_last_dot_of,
};
use vstd::utf8::encode_utf8;
use crate::path::{extension, extension_from, rfind_char, rfind_char_pos};
use crate::kompanion_core::indexer::{FileIndexer, IndexMetadata, MetadataMap};
use super::ArchiveEntry;

verus! {

/// An author as FictionBook describes one.
pub enum Fb2Author {
    Verbose {
        first_name: String,
        middle_name: Option<String>,
        last_name: String,
        nickname: Option<String>,
    },
    Anonymous { nickname: Option<String> },
}

/// The `title-info` of a FictionBook, as far as the indexer reads it.
pub struct Fb2TitleInfo {
    pub book_title: String,
    pub authors: Vec<Fb2Author>,
    pub lang: String,
    /// The names of the series the book belongs to.
    pub sequence_names: Vec<Option<String>>,
    /// The `href` of every image of the cover page, if there is one.
    pub cover_hrefs: Option<Vec<Option<String>>>,
}

/// An inline binary (image) of a FictionBook.
pub struct Fb2Binary {
    pub id: String,
    pub content_type: String,
    /// The base64 payload, possibly wrapped over many lines.
    pub content: String,
}

/// A parsed FictionBook.
pub struct Fb2Book {
    pub title_info: Fb2TitleInfo,
    pub binaries: Vec<Fb2Binary>,
}

/// A parsed FictionBook document.
#[verifier::external_type_specification]
#[verifier::external_body]
pub struct ExFictionBook(fb2::FictionBook);

/// The `title-info` of a FictionBook document.
#[verifier::external_type_specification]
#[verifier::external_body]
pub struct ExFb2TitleInfo(fb2::TitleInfo);

/// An author of a FictionBook document.
#[verifier::external_type_specification]
#[verifier::external_body]
pub struct ExFb2Author(fb2::Author);

/// What the FictionBook schema (the `fb2` crate's types, deserialised by
/// `quick_xml`) reads from `bytes`, as far as the indexer keeps it; `None`
/// when the bytes are not such a document.
pub uninterp spec fn fb2_document(bytes: Seq<u8>) -> Option<Fb2Book>;

/// An author as the indexer keeps it (moves the name fields out).
#[verifier::external_body]
fn author_from(a: &fb2::Author) -> Fb2Author {
    match a {
        fb2::Author::Verbose(v) => Fb2Author::Verbose {
            first_name: v.first_name.value.clone(),
            middle_name: v.middle_name.as_ref().map(|m| m.value.clone()),
            last_name: v.last_name.value.clone(),
            nickname: v.nickname.as_ref().map(|n| n.value.clone()),
        },
        fb2::Author::Anonymous(a) => Fb2Author::Anonymous { nickname: a.nickname.as_ref().map(|n| n.value.clone()) },
    }
}

/// The title information as the indexer keeps it (moves the fields out).
#[verifier::external_body]
fn title_info_from(i: &fb2::TitleInfo) -> Fb2TitleInfo {
    Fb2TitleInfo {
        book_title: i.book_title.value.clone(),
        authors: i.authors.iter().map(author_from).collect(),
        lang: i.lang.clone(),
        sequence_names: i.sequences.iter().map(|s| s.name.clone()).collect(),
        cover_hrefs: i.cover_page.as_ref().map(|c| c.images.iter().map(|m| m.href.clone()).collect()),
    }
}

/// The book as the indexer keeps it (moves the fields out).
#[verifier::external_body]
fn book_from(fb: &fb2::FictionBook) -> Fb2Book {
    let binaries = fb.binaries.iter().map(|b| Fb2Binary {
        id: b.id.clone(),
        content_type: b.content_type.clone(),
        content: b.content.clone(),
    });
    Fb2Book { title_info: title_info_from(&fb.description.title_info), binaries: binaries.collect() }
}

/// `quick_xml::de::from_reader` into the `fb2` crate's `FictionBook`:
/// the document the bytes hold, or its parse error.
#[verifier::external_body]
fn deserialize_fb2(bytes: &[u8]) -> (r: Result<Fb2Book, String>)
    ensures
        match r {
            Ok(b) => fb2_document(bytes@) == Some(b),
            Err(_) => fb2_document(bytes@) is None,
        },
{
    match quick_xml::de::from_reader::<_, fb2::FictionBook>(bytes) {
        Ok(fb) => Ok(book_from(&fb)),
        Err(e) => Err(format!("Failed to parse FB2: {e}")),
    }
}

/// The FictionBook that the bytes of a raw `.fb2` file (or of the book
/// entry of a zipped one) hold; an error when they hold none.
pub fn parse_book(bytes: &[u8]) -> (r: Result<Fb2Book, String>)
    ensures
        match r {
            Ok(b) => fb2_document(bytes@) == Some(b),
            Err(_) => fb2_document(bytes@) is None,
        },
{
    deserialize_fb2(bytes)
}

/// The optional text, when present and not blank, trimmed.
pub open spec fn non_empty_opt_text(o: Option<String>) -> Option<Seq<char>> {
    match o {
        Some(s) => non_empty_text(s@),
        None => None,
    }
}

/// The trimmed value, unless it is missing or blank.
pub fn non_empty_opt(value: &Option<String>) -> (r: Option<String>)
    ensures
        opt_seq(r) == non_empty_opt_text(*value),
{
    match value {
        Some(v) => non_empty(v.as_str()),
        None => None,
    }
}

/// The words of `parts` joined by single spaces.
pub open spec fn join_words(parts: Seq<Seq<char>>) -> Seq<char>
    decreases parts.len(),
{
    if parts.len() == 0 {
        Seq::empty()
    } else if parts.len() == 1 {
        parts[0]
    } else {
        join_words(parts.drop_last()) + " "@ + parts.last()
    }
}

/// The present ones among the given name parts, in order.
pub open spec fn present(parts: Seq<Option<Seq<char>>>) -> Seq<Seq<char>>
    decreases parts.len(),
{
    if parts.len() == 0 {
        Seq::empty()
    } else {
        match parts.last() {
            Some(p) => present(parts.drop_last()).push(p),
            None => present(parts.drop_last()),
        }
    }
}

/// The display name of an author: first, middle and last name joined, or
/// the nickname when none of them is given.
pub open spec fn author_display(a: Fb2Author) -> Option<Seq<char>> {
    match a {
        Fb2Author::Verbose { first_name, middle_name, last_name, nickname } => {
            let parts = present(
                seq![
                    non_empty_text(first_name@),
                    non_empty_opt_text(middle_name),
                    non_empty_text(last_name@),
                ],
            );
            if parts.len() == 0 {
                non_empty_opt_text(nickname)
            } else {
                Some(join_words(parts))
            }
        },
        Fb2Author::Anonymous { nickname } => non_empty_opt_text(nickname),
    }
}

/// The views of a sequence of strings.
pub open spec fn views(v: Seq<String>) -> Seq<Seq<char>> {
    v.map_values(|s: String| s@)
}

proof fn lemma_present_push(s: Seq<Option<Seq<char>>>, x: Option<Seq<char>>)
    ensures
        present(s.push(x)) == match x {
            Some(p) => present(s).push(p),
            None => present(s),
        },
{
    assert(s.push(x).drop_last() =~= s);
}

/// Adds the value, when present, to the list.
fn push_present(v: &mut Vec<String>, o: Option<String>)
    ensures
        views(final(v)@) == match opt_seq(o) {
            Some(p) => views(old(v)@).push(p),
            None => views(old(v)@),
        },
{
    if let Some(x) = o {
        v.push(x);
        assert(views(v@) =~= views(old(v)@).push(v@.last()@));
    }
}

/// The words joined by single spaces (`[&str]::join(" ")`).
pub fn join_with_spaces(parts: &Vec<String>) -> (r: String)
    ensures
        r@ == join_words(views(parts@)),
{
    let mut out = String::new();
    let mut i: usize = 0;
    assert(views(parts@).take(0) =~= Seq::<Seq<char>>::empty());
    while i < parts.len()
        invariant
            i <= parts@.len(),
            out@ == join_words(views(parts@).take(i as int)),
        decreases parts@.len() - i,
    {
        assert(views(parts@).take(i + 1).drop_last() =~= views(parts@).take(i as int));
        if i > 0 {
            out.append(" ");
        } else {
            assert(views(parts@).take(1) =~= seq![parts@[0]@]);
        }
        out.append(parts[i].as_str());
        i = i + 1;
    }
    assert(views(parts@).take(parts@.len() as int) =~= views(parts@));
    out
}

/// The display name of an author.
pub fn author_name(author: &Fb2Author) -> (r: Option<String>)
    ensures
        opt_seq(r) == author_display(*author),
{
    match author {
        Fb2Author::Verbose { first_name, middle_name, last_name, nickname } => {
            let first = non_empty(first_name.as_str());
            let middle = non_empty_opt(middle_name);
            let last = non_empty(last_name.as_str());
            let ghost o1 = opt_seq(first);
            let ghost o2 = opt_seq(middle);
            let ghost o3 = opt_seq(last);
            let mut parts: Vec<String> = Vec::new();
            push_present(&mut parts, first);
            push_present(&mut parts, middle);
            push_present(&mut parts, last);
            proof {
                let e = Seq::<Option<Seq<char>>>::empty();
                assert(views(Seq::<String>::empty()) =~= Seq::<Seq<char>>::empty());
                lemma_present_push(e, o1);
                lemma_present_push(e.push(o1), o2);
                lemma_present_push(e.push(o1).push(o2), o3);
                assert(e.push(o1).push(o2).push(o3) =~= seq![o1, o2, o3]);
            }
            if parts.len() == 0 {
                non_empty_opt(nickname)
            } else {
                Some(join_with_spaces(&parts))
            }
        },
        Fb2Author::Anonymous { nickname } => non_empty_opt(nickname),
    }
}


/// The first author that has a display name.
pub open spec fn first_author(authors: Seq<Fb2Author>) -> Option<Seq<char>>
    decreases authors.len(),
{
    if authors.len() == 0 {
        None
    } else {
        match author_display(authors[0]) {
            Some(n) => Some(n),
            None => first_author(authors.drop_first()),
        }
    }
}

/// The author of a book is the display name of the earliest author that
/// has one: if author `i` has a display name and none before it has, the
/// author is author `i`'s display name; if none has one, there is no author.
pub proof fn lemma_first_author_is_earliest(authors: Seq<Fb2Author>, i: int)
    requires
        0 <= i < authors.len(),
        author_display(authors[i]) is Some,
        forall|j: int| 0 <= j < i ==> #[trigger] author_display(authors[j]) is None,
    ensures
        first_author(authors) == author_display(authors[i]),
    decreases i,
{
    if i > 0 {
        assert(author_display(authors[0]) is None);
        let rest = authors.drop_first();
        assert forall|j: int| 0 <= j < i - 1 implies #[trigger] author_display(rest[j]) is None by {
            assert(rest[j] == authors[j + 1]);
            assert(author_display(authors[j + 1]) is None);
        }
        assert(rest[i - 1] == authors[i]);
        lemma_first_author_is_earliest(rest, i - 1);
    }
}

/// A book none of whose authors has a display name has no author.
pub proof fn lemma_first_author_none(authors: Seq<Fb2Author>)
    requires
        forall|j: int| 0 <= j < authors.len() ==> #[trigger] author_display(authors[j]) is None,
    ensures
        first_author(authors) is None,
    decreases authors.len(),
{
    if authors.len() > 0 {
        assert(author_display(authors[0]) is None);
        let rest = authors.drop_first();
        assert forall|j: int| 0 <= j < rest.len() implies #[trigger] author_display(rest[j]) is None by {
            assert(rest[j] == authors[j + 1]);
            assert(author_display(authors[j + 1]) is None);
        }
        lemma_first_author_none(rest);
    }
}

/// The first series name that is not blank.
pub open spec fn first_series(names: Seq<Option<String>>) -> Option<Seq<char>>
    decreases names.len(),
{
    if names.len() == 0 {
        None
    } else {
        match non_empty_opt_text(names[0]) {
            Some(n) => Some(n),
            None => first_series(names.drop_first()),
        }
    }
}

/// The series of a book is the earliest series name that is not blank: if
/// name `i` is one and none before it is, the series is name `i`, trimmed.
pub proof fn lemma_first_series_is_earliest(names: Seq<Option<String>>, i: int)
    requires
        0 <= i < names.len(),
        non_empty_opt_text(names[i]) is Some,
        forall|j: int| 0 <= j < i ==> #[trigger] non_empty_opt_text(names[j]) is None,
    ensures
        first_series(names) == non_empty_opt_text(names[i]),
    decreases i,
{
    if i > 0 {
        assert(non_empty_opt_text(names[0]) is None);
        let rest = names.drop_first();
        assert forall|j: int| 0 <= j < i - 1 implies #[trigger] non_empty_opt_text(rest[j]) is None by {
            assert(rest[j] == names[j + 1]);
            assert(non_empty_opt_text(names[j + 1]) is None);
        }
        assert(rest[i - 1] == names[i]);
        lemma_first_series_is_earliest(rest, i - 1);
    }
}

/// The extra fields of a FictionBook: its language and first series.
pub open spec fn fb2_extra(info: Fb2TitleInfo) -> Map<Seq<char>, Seq<char>> {
    let m1 = if trim(info.lang@).len() > 0 {
        Map::<Seq<char>, Seq<char>>::empty().insert("language"@, trim(info.lang@))
    } else {
        Map::empty()
    };
    match first_series(info.sequence_names@) {
        Some(s) => m1.insert("series"@, s),
        None => m1,
    }
}

/// The href of the first cover image that has one.
pub open spec fn first_href(hrefs: Seq<Option<String>>) -> Option<Seq<char>>
    decreases hrefs.len(),
{
    if hrefs.len() == 0 {
        None
    } else {
        match hrefs[0] {
            Some(h) => Some(h@),
            None => first_href(hrefs.drop_first()),
        }
    }
}

/// The href of the cover image, if the book has a cover page with one.
pub open spec fn cover_href_spec(info: Fb2TitleInfo) -> Option<Seq<char>> {
    match info.cover_hrefs {
        Some(h) => first_href(h@),
        None => None,
    }
}

/// The href of the cover image.
pub fn cover_href(info: &Fb2TitleInfo) -> (r: Option<String>)
    ensures
        opt_seq(r) == cover_href_spec(*info),
{
    let hrefs = match &info.cover_hrefs {
        Some(h) => h,
        None => return None,
    };
    let mut i: usize = 0;
    assert(hrefs@.subrange(0, hrefs@.len() as int) =~= hrefs@);
    while i < hrefs.len()
        invariant
            i <= hrefs@.len(),
            info.cover_hrefs == Some(*hrefs),
            first_href(hrefs@) == first_href(hrefs@.subrange(i as int, hrefs@.len() as int)),
        decreases hrefs@.len() - i,
    {
        assert(hrefs@.subrange(i as int, hrefs@.len() as int).drop_first() =~= hrefs@.subrange(
            i + 1,
            hrefs@.len() as int,
        ));
        if let Some(h) = &hrefs[i] {
            return Some(string_from_chars(chars_of(h.as_str()).as_slice()));
        }
        i = i + 1;
    }
    None
}

/// The extension for a lower-cased content type the indexer knows.
pub open spec fn known_extension(lower_type: Seq<char>) -> Option<Seq<char>> {
    if lower_type == "image/jpeg"@ || lower_type == "image/jpg"@ {
        Some("jpg"@)
    } else if lower_type == "image/png"@ {
        Some("png"@)
    } else if lower_type == "image/gif"@ {
        Some("gif"@)
    } else {
        None
    }
}

/// The extension for a lower-cased content type the indexer knows.
pub fn known_image_extension(lower_type: &str) -> (r: Option<&'static str>)
    ensures
        match r {
            Some(e) => known_extension(lower_type@) == Some(e@),
            None => known_extension(lower_type@) is None,
        },
{
    if str_equal(lower_type, "image/jpeg") || str_equal(lower_type, "image/jpg") {
        Some("jpg")
    } else if str_equal(lower_type, "image/png") {
        Some("png")
    } else if str_equal(lower_type, "image/gif") {
        Some("gif")
    } else {
        None
    }
}

/// The extension of the cover file: from the content type when it is a
/// known image type, else from the binary's id, else `jpg`.
pub open spec fn image_extension_spec(content_type: Seq<char>, href_id: Seq<char>) -> Seq<char> {
    match known_extension(lowercase_of(content_type)) {
        Some(e) => e,
        None => {
            let t = after_last_dot(href_id);
            if t.len() > 0 && t != href_id {
                lowercase_of(t)
            } else {
                "jpg"@
            }
        },
    }
}

/// The extension of the cover file.
pub fn image_extension(content_type: &str, href_id: &str) -> (r: String)
    ensures
        r@ == image_extension_spec(content_type@, href_id@),
{
    let lower = to_lowercase(content_type);
    if let Some(e) = known_image_extension(lower.as_str()) {
        return String::from_str(e);
    }
    let ts = after_last_dot_of(href_id);
    if !ts.as_str().is_empty() && !str_equal(ts.as_str(), href_id) {
        to_lowercase(ts.as_str())
    } else {
        String::from_str("jpg")
    }
}

/// `s` without its leading `#` characters.
pub open spec fn strip_hashes(s: Seq<char>) -> Seq<char>
    decreases s.len(),
{
    if s.len() > 0 && s[0] == '#' {
        strip_hashes(s.drop_first())
    } else {
        s
    }
}

/// The first binary with the given id.
pub open spec fn binary_with_id(bins: Seq<Fb2Binary>, id: Seq<char>) -> Option<Fb2Binary>
    decreases bins.len(),
{
    if bins.len() == 0 {
        None
    } else if bins[0].id@ == id {
        Some(bins[0])
    } else {
        binary_with_id(bins.drop_first(), id)
    }
}

/// What the standard base64 engine decodes `input` to (`None` when it
/// rejects the input).
pub uninterp spec fn base64_standard_decoded(input: Seq<u8>) -> Option<Seq<u8>>;

/// `base64::engine::general_purpose::STANDARD.decode`.
#[verifier::external_body]
fn decode_standard(input: &[u8]) -> (r: Result<Vec<u8>, String>)
    ensures
        match r {
            Ok(b) => base64_standard_decoded(input@) == Some(b@),
            Err(_) => base64_standard_decoded(input@) is None,
        },
{
    base64::engine::general_purpose::STANDARD.decode(input).map_err(
        |e| format!("Failed to decode cover image: {e}"),
    )
}

/// The cover of the book: the bytes of the binary its cover page points at
/// (whitespace removed before base64 decoding) and the file extension.
pub open spec fn cover_image_spec(book: Fb2Book) -> Option<Option<(Seq<u8>, Seq<char>)>> {
    match cover_href_spec(book.title_info) {
        None => Some(None),
        Some(h) => {
            let id = strip_hashes(h);
            match binary_with_id(book.binaries@, id) {
                None => Some(None),
                Some(b) => match base64_standard_decoded(encode_utf8(without_white(b.content@))) {
                    Some(bytes) => Some(Some((bytes, image_extension_spec(b.content_type@, id)))),
                    None => None,
                },
            }
        },
    }
}

/// The cover image of the book and its extension; `Ok(None)` when the book
/// has no cover or the cover binary is missing, `Err` when it is not valid
/// base64.
pub fn cover_image(book: &Fb2Book) -> (r: Result<Option<(Vec<u8>, String)>, String>)
    ensures
        match r {
            Ok(None) => cover_image_spec(*book) == Some(None::<(Seq<u8>, Seq<char>)>),
            Ok(Some((bytes, ext))) => cover_image_spec(*book) == Some(Some((bytes@, ext@))),
            Err(_) => cover_image_spec(*book) is None,
        },
{
    let href = match cover_href(&book.title_info) {
        Some(h) => h,
        None => return Ok(None),
    };
    let hc = chars_of(href.as_str());
    let mut k: usize = 0;
    assert(hc@.subrange(0, hc@.len() as int) =~= hc@);
    while k < hc.len() && hc[k] == '#'
        invariant
            k <= hc@.len(),
            strip_hashes(hc@) == strip_hashes(hc@.subrange(k as int, hc@.len() as int)),
        decreases hc@.len() - k,
    {
        assert(hc@.subrange(k as int, hc@.len() as int).drop_first() =~= hc@.subrange(
            k + 1,
            hc@.len() as int,
        ));
        k = k + 1;
    }
    let id = string_from_chars(slice_chars(hc.as_slice(), k, hc.len()).as_slice());
    assert(strip_hashes(hc@.subrange(k as int, hc@.len() as int)) == id@);
    let bins = &book.binaries;
    let mut i: usize = 0;
    assert(bins@.subrange(0, bins@.len() as int) =~= bins@);
    while i < bins.len()
        invariant
            i <= bins@.len(),
            bins@ == book.binaries@,
            cover_href_spec(book.title_info) == Some(href@),
            strip_hashes(href@) == id@,
            binary_with_id(bins@, id@) == binary_with_id(bins@.subrange(i as int, bins@.len() as int), id@),
        decreases bins@.len() - i,
    {
        assert(bins@.subrange(i as int, bins@.len() as int).drop_first() =~= bins@.subrange(
            i + 1,
            bins@.len() as int,
        ));
        let b = &bins[i];
        assert(bins@.subrange(i as int, bins@.len() as int)[0] == bins@[i as int]);
        if str_equal(b.id.as_str(), id.as_str()) {
            let cleaned = remove_whitespace(b.content.as_str());
            assert(binary_with_id(bins@, id@) == Some(*b));
            assert(cover_href_spec(book.title_info) == Some(href@));
            assert(strip_hashes(href@) == id@);
            let decoded = decode_standard(cleaned.as_str().as_bytes());
            match decoded {
                Ok(bytes) => {
                    let ext = image_extension(b.content_type.as_str(), id.as_str());
                    return Ok(Some((bytes, ext)));
                },
                Err(e) => {
                    return Err(e);
                },
            }
        }
        i = i + 1;
    }
    Ok(None)
}

/// The first leading bytes of a zip archive (a local file header).
pub open spec fn is_zip_header(header: Seq<u8>) -> bool {
    header.len() >= 4 && header[0] == 0x50 && header[1] == 0x4b && header[2] == 0x03 && header[3]
        == 0x04
}

/// Whether the first bytes of a file (up to four) are the zip magic `PK\x03\x04`.
pub fn is_zip(header: &[u8]) -> (r: bool)
    ensures
        r == is_zip_header(header@),
{
    header.len() >= 4 && header[0] == 0x50 && header[1] == 0x4b && header[2] == 0x03 && header[3]
        == 0x04
}

/// Entry `e` is a file with an `.fb2` extension (any ASCII case).
pub open spec fn is_fb2_entry(e: ArchiveEntry) -> bool {
    e.is_file && match e.enclosed_name {
        Some(n) => match extension(n@) {
            Some(x) => eq_ignore_ascii_case(x, "fb2"@),
            None => false,
        },
        None => false,
    }
}

/// The first entry satisfying the file test among positions `k..`.
pub open spec fn first_fb2_from(entries: Seq<ArchiveEntry>, k: int) -> Option<int>
    decreases entries.len() - k,
{
    if k < 0 || k >= entries.len() {
        None
    } else if is_fb2_entry(entries[k]) {
        Some(k)
    } else {
        first_fb2_from(entries, k + 1)
    }
}

/// The first regular file among positions `k..`.
pub open spec fn first_file_from(entries: Seq<ArchiveEntry>, k: int) -> Option<int>
    decreases entries.len() - k,
{
    if k < 0 || k >= entries.len() {
        None
    } else if entries[k].is_file {
        Some(k)
    } else {
        first_file_from(entries, k + 1)
    }
}

/// The entry holding the book in a zipped FictionBook: the first `.fb2`
/// file, else the first file.
pub fn select_book_entry(entries: &[ArchiveEntry]) -> (r: Result<usize, String>)
    ensures
        match r {
            Ok(i) => match first_fb2_from(entries@, 0) {
                Some(k) => i == k,
                None => first_file_from(entries@, 0) == Some(i as int),
            },
            Err(e) => first_fb2_from(entries@, 0) is None && first_file_from(entries@, 0) is None
                && e@ == "No file entry found in archive"@,
        },
{
    let fb2 = chars_of("fb2");
    let mut first_file: Option<usize> = None;
    let mut i: usize = 0;
    while i < entries.len()
        invariant
            i <= entries@.len(),
            fb2@ == "fb2"@,
            first_fb2_from(entries@, 0) == first_fb2_from(entries@, i as int),
            match first_file {
                Some(f) => first_file_from(entries@, 0) == Some(f as int),
                None => first_file_from(entries@, 0) == first_file_from(entries@, i as int),
            },
        decreases entries@.len() - i,
    {
        let e = &entries[i];
        if e.is_file {
            if first_file.is_none() {
                first_file = Some(i);
            }
            if let Some(n) = &e.enclosed_name {
                if let Some(x) = extension_from(chars_of(n.as_str()).as_slice()) {
                    if chars_eq_ignore_ascii_case(x.as_slice(), fb2.as_slice()) {
                        return Ok(i);
                    }
                }
            }
        }
        i = i + 1;
    }
    match first_file {
        Some(f) => Ok(f),
        None => Err(String::from_str("No file entry found in archive")),
    }
}

/// The first author that has a display name.
fn first_author_of(authors: &Vec<Fb2Author>) -> (r: Option<String>)
    ensures
        opt_seq(r) == first_author(authors@),
{
    let mut i: usize = 0;
    assert(authors@.subrange(0, authors@.len() as int) =~= authors@);
    while i < authors.len()
        invariant
            i <= authors@.len(),
            first_author(authors@) == first_author(authors@.subrange(i as int, authors@.len() as int)),
        decreases authors@.len() - i,
    {
        assert(authors@.subrange(i as int, authors@.len() as int).drop_first() =~= authors@.subrange(
            i + 1,
            authors@.len() as int,
        ));
        let a = author_name(&authors[i]);
        if a.is_some() {
            return a;
        }
        i = i + 1;
    }
    None
}

/// The first series name that is not blank, trimmed.
fn first_series_of(names: &Vec<Option<String>>) -> (r: Option<String>)
    ensures
        opt_seq(r) == first_series(names@),
{
    let mut j: usize = 0;
    assert(names@.subrange(0, names@.len() as int) =~= names@);
    while j < names.len()
        invariant
            j <= names@.len(),
            first_series(names@) == first_series(names@.subrange(j as int, names@.len() as int)),
        decreases names@.len() - j,
    {
        assert(names@.subrange(j as int, names@.len() as int).drop_first() =~= names@.subrange(
            j + 1,
            names@.len() as int,
        ));
        let n = non_empty_opt(&names[j]);
        if n.is_some() {
            return n;
        }
        j = j + 1;
    }
    None
}

/// Indexer for FictionBook books.
pub struct Fb2Indexer;

impl FileIndexer for Fb2Indexer {
    open spec fn handles(&self, filename: Seq<char>) -> bool {
        is_suffix(".fb2"@, filename) || is_suffix(".fbz"@, filename) || is_suffix(
            ".fb2.zip"@,
            filename,
        )
    }

    open spec fn mime(&self) -> Seq<char> {
        "application/fictionbook2+zip"@
    }

    open spec fn content_type(&self) -> Seq<char> {
        "EBOK"@
    }

    fn can_handle(&self, filename: &str) -> (r: bool) {
        ends_with(filename, ".fb2") || ends_with(filename, ".fbz") || ends_with(filename, ".fb2.zip")
    }

    fn mime_type(&self) -> (r: &'static str) {
        "application/fictionbook2+zip"
    }

    fn cde_type(&self) -> (r: &'static str) {
        "EBOK"
    }
}

impl Fb2Indexer {
    /// Name, author, language and series of a parsed book.
    pub fn extract_metadata(&self, book: &Fb2Book) -> (r: Result<IndexMetadata, String>)
        ensures
            r matches Ok(m) && {
                &&& opt_seq(m.name) == non_empty_text(book.title_info.book_title@)
                &&& opt_seq(m.author) == first_author(book.title_info.authors@)
                &&& m.icon is None
                &&& m.extra@ == fb2_extra(book.title_info)
            },
    {
        let info = &book.title_info;
        let name = non_empty(info.book_title.as_str());
        let author = first_author_of(&info.authors);
        let mut extra = MetadataMap::new();
        if let Some(l) = non_empty(info.lang.as_str()) {
            extra.insert(String::from_str("language"), l);
        }
        if let Some(sr) = first_series_of(&info.sequence_names) {
            extra.insert(String::from_str("series"), sr);
        }
        Ok(IndexMetadata { name, author, icon: None, extra })
    }
}

} // verus!
