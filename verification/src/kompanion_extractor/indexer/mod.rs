//! The indexers and the registry that picks one for a file name.
use vstd::prelude::*;
use vstd::string::*;
use crate::text::concat;
use crate::kompanion_core::indexer::FileIndexer;
use cbz::CbzIndexer;
use epub::EpubIndexer;
use fb2::Fb2Indexer;

pub mod cbz;
pub mod epub;
pub mod fb2;

verus! {

/// One entry of a zip archive, as the archive lists it.
pub struct ArchiveEntry {
    /// Whether the entry is a regular file (not a directory).
    pub is_file: bool,
    /// The entry's path if it is safe to use (`enclosed_name`).
    pub enclosed_name: Option<String>,
}


/// The sidecar directory of a book: its path with `.sdr` appended.
pub fn sdr_path(full_path: &str) -> (r: String)
    ensures
        r@ == full_path@ + ".sdr"@,
{
    concat(full_path, ".sdr")
}

/// The cover file inside a sidecar directory: `<sdr>/cover.<ext>`.
pub fn cover_path(sdr_path: &str, ext: &str) -> (r: String)
    ensures
        r@ == sdr_path@ + "/cover."@ + ext@,
{
    let mut out = concat(sdr_path, "/cover.");
    out.append(ext);
    out
}


/// One of the indexers the extractor knows.
pub enum Indexer {
    Epub(EpubIndexer),
    Cbz(CbzIndexer),
    Fb2(Fb2Indexer),
}

impl FileIndexer for Indexer {
    open spec fn handles(&self, filename: Seq<char>) -> bool {
        match self {
            Indexer::Epub(i) => i.handles(filename),
            Indexer::Cbz(i) => i.handles(filename),
            Indexer::Fb2(i) => i.handles(filename),
        }
    }

    open spec fn mime(&self) -> Seq<char> {
        match self {
            Indexer::Epub(i) => i.mime(),
            Indexer::Cbz(i) => i.mime(),
            Indexer::Fb2(i) => i.mime(),
        }
    }

    open spec fn content_type(&self) -> Seq<char> {
        match self {
            Indexer::Epub(i) => i.content_type(),
            Indexer::Cbz(i) => i.content_type(),
            Indexer::Fb2(i) => i.content_type(),
        }
    }

    fn can_handle(&self, filename: &str) -> (r: bool) {
        match self {
            Indexer::Epub(i) => i.can_handle(filename),
            Indexer::Cbz(i) => i.can_handle(filename),
            Indexer::Fb2(i) => i.can_handle(filename),
        }
    }

    fn mime_type(&self) -> (r: &'static str) {
        match self {
            Indexer::Epub(i) => i.mime_type(),
            Indexer::Cbz(i) => i.mime_type(),
            Indexer::Fb2(i) => i.mime_type(),
        }
    }

    /// None of the indexers has install or remove hooks.
    fn supports_hooks(&self) -> (r: bool)
        ensures
            !r,
    {
        false
    }

    fn cde_type(&self) -> (r: &'static str) {
        match self {
            Indexer::Epub(i) => i.cde_type(),
            Indexer::Cbz(i) => i.cde_type(),
            Indexer::Fb2(i) => i.cde_type(),
        }
    }
}

/// The indexers in the order they are asked: EPUB, CBZ, FB2.
pub open spec fn registry_order() -> Seq<Indexer> {
    seq![Indexer::Epub(EpubIndexer), Indexer::Cbz(CbzIndexer), Indexer::Fb2(Fb2Indexer)]
}

/// The registry of indexers, in the order they are asked.
pub fn init_registry() -> (r: Vec<Indexer>)
    ensures
        r@ == registry_order(),
{
    let mut v = Vec::new();
    v.push(Indexer::Epub(EpubIndexer));
    v.push(Indexer::Cbz(CbzIndexer));
    v.push(Indexer::Fb2(Fb2Indexer));
    assert(v@ =~= registry_order());
    v
}

/// The first indexer of `reg`, from position `k`, that takes `filename`.
pub open spec fn first_handling(reg: Seq<Indexer>, filename: Seq<char>, k: int) -> Option<int>
    decreases reg.len() - k,
{
    if k < 0 || k >= reg.len() {
        None
    } else if reg[k].handles(filename) {
        Some(k)
    } else {
        first_handling(reg, filename, k + 1)
    }
}

/// The indexer chosen for a file is the earliest one, from `k` on, that
/// takes it: it takes the file and none before it (from `k`) does; when
/// none is chosen, no indexer from `k` on takes the file.
pub proof fn lemma_first_handling_is_earliest(reg: Seq<Indexer>, filename: Seq<char>, k: int)
    requires
        0 <= k,
    ensures
        match first_handling(reg, filename, k) {
            Some(i) => k <= i < reg.len() && reg[i].handles(filename) && forall|j: int|
                k <= j < i ==> !#[trigger] reg[j].handles(filename),
            None => forall|j: int| k <= j < reg.len() ==> !#[trigger] reg[j].handles(filename),
        },
    decreases reg.len() - k,
{
    if k < reg.len() && !reg[k].handles(filename) {
        lemma_first_handling_is_earliest(reg, filename, k + 1);
    }
}

/// The first indexer of the registry that takes `filename`.
pub fn find_indexer<'a>(registry: &'a Vec<Indexer>, filename: &str) -> (r: Option<&'a Indexer>)
    ensures
        match first_handling(registry@, filename@, 0) {
            Some(k) => r == Some(&registry@[k]),
            None => r is None,
        },
{
    let mut i: usize = 0;
    while i < registry.len()
        invariant
            i <= registry@.len(),
            first_handling(registry@, filename@, 0) == first_handling(registry@, filename@, i as int),
        decreases registry@.len() - i,
    {
        if registry[i].can_handle(filename) {
            return Some(&registry[i]);
        }
        i = i + 1;
    }
    None
}

/// The `k`-th character from the end of a suffix is that of the name.
proof fn lemma_suffix_char(p: Seq<char>, s: Seq<char>, k: int)
    requires
        crate::text::is_suffix(p, s),
        0 <= k < p.len(),
    ensures
        s[s.len() - 1 - k] == p[p.len() - 1 - k],
{
    assert(s.subrange(s.len() - p.len(), s.len() as int)[p.len() - 1 - k] == s[s.len() - 1 - k]);
}

/// No file name is taken by two indexers of the registry, so the order in
/// which they are asked does not change which one indexes a file.
pub proof fn lemma_registry_disjoint(filename: Seq<char>, i: int, j: int)
    requires
        0 <= i < j < registry_order().len(),
    ensures
        !(registry_order()[i].handles(filename) && registry_order()[j].handles(filename)),
{
    reveal_strlit(".epub");
    reveal_strlit(".cbz");
    reveal_strlit(".fb2");
    reveal_strlit(".fbz");
    reveal_strlit(".fb2.zip");
    let f = filename;
    if registry_order()[i].handles(f) && registry_order()[j].handles(f) {
        if crate::text::is_suffix(".epub"@, f) {
            lemma_suffix_char(".epub"@, f, 0);
        }
        if crate::text::is_suffix(".cbz"@, f) {
            lemma_suffix_char(".cbz"@, f, 0);
            lemma_suffix_char(".cbz"@, f, 2);
        }
        if crate::text::is_suffix(".fb2"@, f) {
            lemma_suffix_char(".fb2"@, f, 0);
        }
        if crate::text::is_suffix(".fbz"@, f) {
            lemma_suffix_char(".fbz"@, f, 0);
            lemma_suffix_char(".fbz"@, f, 2);
        }
        if crate::text::is_suffix(".fb2.zip"@, f) {
            lemma_suffix_char(".fb2.zip"@, f, 0);
        }
    }
}

} // verus!
