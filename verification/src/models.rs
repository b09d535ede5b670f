//! The catalog of downloadable speech models, lookup by id, and the
//! bookkeeping of a model download.

use vstd::prelude::*;
use crate::perf::{PerfProfile, spec_default_model_id, spec_gpu_model_id};
use crate::text::str_eq;

verus! {

/// What a model is for.
#[derive(Debug, Clone, Copy, PartialEq, Eq, Structural)]
pub enum ModelKind {
    Speech,
    Polish,
}

/// One downloadable model.
pub struct ModelCatalogEntry {
    pub id: String,
    pub name: String,
    pub filename: String,
    pub url: String,
    pub size_bytes: u64,
    pub profile: PerfProfile,
    pub kind: ModelKind,
}

/// The contents of a catalog entry.
pub struct CatalogRecord {
    pub id: Seq<char>,
    pub name: Seq<char>,
    pub filename: Seq<char>,
    pub url: Seq<char>,
    pub size_bytes: u64,
    pub profile: PerfProfile,
    pub kind: ModelKind,
}

impl View for ModelCatalogEntry {
    type V = CatalogRecord;

    open spec fn view(&self) -> CatalogRecord {
        CatalogRecord {
            id: self.id@,
            name: self.name@,
            filename: self.filename@,
            url: self.url@,
            size_bytes: self.size_bytes,
            profile: self.profile,
            kind: self.kind,
        }
    }
}

/// Where the model files are published.
pub const HF_BASE: &'static str = "https://huggingface.co/ggerganov/whisper.cpp/resolve/main";

/// A speech-model record published under `HF_BASE`.
pub open spec fn speech_record(
    id: Seq<char>,
    name: Seq<char>,
    filename: Seq<char>,
    size_bytes: u64,
    profile: PerfProfile,
) -> CatalogRecord {
    CatalogRecord {
        id,
        name,
        filename,
        url: HF_BASE@ + "/"@ + filename,
        size_bytes,
        profile,
        kind: ModelKind::Speech,
    }
}

/// The speech models on offer, smallest first.
pub open spec fn spec_catalog() -> Seq<CatalogRecord> {
    seq![
        speech_record(
            "tiny.en"@,
            "Tiny (English)"@,
            "ggml-tiny.en.bin"@,
            77_000_000,
            PerfProfile::Potato,
        ),
        speech_record(
            "tiny"@,
            "Tiny (Multilingual)"@,
            "ggml-tiny.bin"@,
            77_000_000,
            PerfProfile::Potato,
        ),
        speech_record("base"@, "Base"@, "ggml-base.bin"@, 148_000_000, PerfProfile::Balanced),
        speech_record("small"@, "Small"@, "ggml-small.bin"@, 488_000_000, PerfProfile::Quality),
    ]
}

/// The views of a list of catalog entries.
pub open spec fn records(v: Seq<ModelCatalogEntry>) -> Seq<CatalogRecord> {
    Seq::new(v.len(), |i: int| v[i]@)
}

/// A speech-model entry published under `HF_BASE`.
fn speech_entry(
    id: &str,
    name: &str,
    filename: &str,
    size_bytes: u64,
    profile: PerfProfile,
) -> (e: ModelCatalogEntry)
    ensures
        e@ == speech_record(id@, name@, filename@, size_bytes, profile),
{
    let mut url = HF_BASE.to_owned();
    url.append("/");
    url.append(filename);
    ModelCatalogEntry {
        id: id.to_owned(),
        name: name.to_owned(),
        filename: filename.to_owned(),
        url,
        size_bytes,
        profile,
        kind: ModelKind::Speech,
    }
}

/// The speech models on offer.
pub fn speech_catalog() -> (v: Vec<ModelCatalogEntry>)
    ensures
        records(v@) == spec_catalog(),
{
    let mut v: Vec<ModelCatalogEntry> = Vec::new();
    v.push(speech_entry("tiny.en", "Tiny (English)", "ggml-tiny.en.bin", 77_000_000, PerfProfile::Potato));
    v.push(speech_entry("tiny", "Tiny (Multilingual)", "ggml-tiny.bin", 77_000_000, PerfProfile::Potato));
    v.push(speech_entry("base", "Base", "ggml-base.bin", 148_000_000, PerfProfile::Balanced));
    v.push(speech_entry("small", "Small", "ggml-small.bin", 488_000_000, PerfProfile::Quality));
    assert(records(v@) =~= spec_catalog());
    v
}

/// Every model on offer.
pub fn catalog() -> (v: Vec<ModelCatalogEntry>)
    ensures
        records(v@) == spec_catalog(),
{
    speech_catalog()
}

/// The position of the first catalog record, from `i` on, whose id is `id`.
pub open spec fn catalog_index_from(id: Seq<char>, i: int) -> Option<int>
    decreases spec_catalog().len() - i,
{
    if i < 0 || i >= spec_catalog().len() {
        None
    } else if spec_catalog()[i].id == id {
        Some(i)
    } else {
        catalog_index_from(id, i + 1)
    }
}

/// The position of the catalog record whose id is `id`, if any.
pub open spec fn catalog_index(id: Seq<char>) -> Option<int> {
    catalog_index_from(id, 0)
}

proof fn lemma_catalog_index_from(id: Seq<char>, i: int)
    requires
        0 <= i,
    ensures
        catalog_index_from(id, i) matches Some(k) ==> i <= k < spec_catalog().len()
            && spec_catalog()[k].id == id,
        catalog_index_from(id, i) is None ==> forall|k: int|
            i <= k < spec_catalog().len() ==> spec_catalog()[k].id != id,
    decreases spec_catalog().len() - i,
{
    if i < spec_catalog().len() {
        lemma_catalog_index_from(id, i + 1);
    }
}

/// The catalog entry whose id is `id`.
pub fn find_catalog_entry(id: &str) -> (r: Option<ModelCatalogEntry>)
    ensures
        r is Some <==> catalog_index(id@) is Some,
        r matches Some(e) ==> e@ == spec_catalog()[catalog_index(id@)->0],
{
    let mut entries = catalog();
    let mut i: usize = 0;
    while i < entries.len()
        invariant
            records(entries@) == spec_catalog(),
            i <= entries@.len(),
            catalog_index(id@) == catalog_index_from(id@, i as int),
        decreases entries@.len() - i,
    {
        assert(entries@[i as int]@ == spec_catalog()[i as int]);
        if str_eq(entries[i].id.as_str(), id) {
            let e = entries.remove(i);
            return Some(e);
        }
        i += 1;
    }
    None
}

/// No two models on offer share an id.
pub proof fn law_catalog_ids_distinct()
    ensures
        forall|i: int, j: int|
            0 <= i < j < spec_catalog().len() ==> #[trigger] spec_catalog()[i].id
                != #[trigger] spec_catalog()[j].id,
{
    reveal_strlit("tiny.en");
    reveal_strlit("tiny");
    reveal_strlit("base");
    reveal_strlit("small");
    assert("tiny.en"@.len() != "tiny"@.len());
    assert("tiny"@[1] != "base"@[1]);
    assert("tiny"@[1] != "small"@[1]);
    assert("tiny.en"@[1] != "base"@[1]);
    assert("tiny.en"@[1] != "small"@[1]);
    assert("base"@.len() != "small"@.len());
}

/// Each model's file is named after its id, `ggml-<id>.bin`, and is
/// published under `HF_BASE`; so no two models on offer share a file.
pub proof fn law_catalog_files_named_by_id()
    ensures
        forall|k: int|
            0 <= k < spec_catalog().len() ==> #[trigger] spec_catalog()[k].filename == "ggml-"@
                + spec_catalog()[k].id + ".bin"@ && spec_catalog()[k].url == HF_BASE@ + "/"@
                + spec_catalog()[k].filename,
        forall|i: int, j: int|
            0 <= i < j < spec_catalog().len() ==> #[trigger] spec_catalog()[i].filename
                != #[trigger] spec_catalog()[j].filename,
{
    reveal_strlit("ggml-");
    reveal_strlit(".bin");
    reveal_strlit("tiny.en");
    reveal_strlit("tiny");
    reveal_strlit("base");
    reveal_strlit("small");
    reveal_strlit("ggml-tiny.en.bin");
    reveal_strlit("ggml-tiny.bin");
    reveal_strlit("ggml-base.bin");
    reveal_strlit("ggml-small.bin");
    assert("ggml-tiny.en.bin"@ =~= "ggml-"@ + "tiny.en"@ + ".bin"@);
    assert("ggml-tiny.bin"@ =~= "ggml-"@ + "tiny"@ + ".bin"@);
    assert("ggml-base.bin"@ =~= "ggml-"@ + "base"@ + ".bin"@);
    assert("ggml-small.bin"@ =~= "ggml-"@ + "small"@ + ".bin"@);
    assert("ggml-tiny.en.bin"@.len() != "ggml-tiny.bin"@.len());
    assert("ggml-tiny.bin"@[5] != "ggml-base.bin"@[5]);
    assert("ggml-tiny.bin"@[5] != "ggml-small.bin"@[5]);
    assert("ggml-tiny.en.bin"@[5] != "ggml-base.bin"@[5]);
    assert("ggml-tiny.en.bin"@[5] != "ggml-small.bin"@[5]);
    assert("ggml-base.bin"@.len() != "ggml-small.bin"@.len());
}

/// Looking up the id of any model on offer finds that model.
pub proof fn law_lookup_finds_each_entry(k: int)
    requires
        0 <= k < spec_catalog().len(),
    ensures
        catalog_index(spec_catalog()[k].id) == Some(k),
{
    law_catalog_ids_distinct();
    lemma_catalog_index_from(spec_catalog()[k].id, 0);
    match catalog_index(spec_catalog()[k].id) {
        Some(j) => {
            if j < k {
                assert(spec_catalog()[j].id != spec_catalog()[k].id);
            } else if j > k {
                assert(spec_catalog()[k].id != spec_catalog()[j].id);
            }
        },
        None => {},
    }
}

/// Each profile's default model is on offer, meant for that profile.
pub proof fn law_default_model_in_catalog(profile: PerfProfile)
    ensures
        catalog_index(spec_default_model_id(profile)) matches Some(k) && spec_catalog()[k].profile
            == profile,
{
    match profile {
        PerfProfile::Potato => law_lookup_finds_each_entry(0),
        PerfProfile::Balanced => law_lookup_finds_each_entry(2),
        PerfProfile::Quality => law_lookup_finds_each_entry(3),
    }
}


/// The model recommended with the GPU is on offer and no smaller than the
/// profile's default; for a balanced machine it is strictly larger.
pub proof fn law_gpu_model_no_smaller(profile: PerfProfile)
    ensures
        catalog_index(spec_gpu_model_id(profile)) matches Some(g) && catalog_index(
            spec_default_model_id(profile),
        ) matches Some(d) && spec_catalog()[g].size_bytes >= spec_catalog()[d].size_bytes && (
        profile == PerfProfile::Balanced ==> spec_catalog()[g].size_bytes
            > spec_catalog()[d].size_bytes),
{
    law_lookup_finds_each_entry(0);
    law_lookup_finds_each_entry(2);
    law_lookup_finds_each_entry(3);
}

/// The error given for an id that names no model on offer.
pub const UNKNOWN_MODEL: &'static str = "Unknown model";

/// The error given when a model on offer has not been downloaded.
pub fn not_installed_message(model_id: &str) -> (m: String)
    ensures
        m@ == "Model '"@ + model_id@ + "' is not installed. Download it from Settings."@,
{
    let mut m = "Model '".to_owned();
    m.append(model_id);
    m.append("' is not installed. Download it from Settings.");
    m
}

/// Whether the model with id `model_id` is ready to load, given whether
/// its file exists: an id that names no model on offer is refused as
/// unknown, a model on offer whose file is missing as not installed.
pub fn model_on_disk(model_id: &str, exists: bool) -> (r: Result<(), String>)
    ensures
        catalog_index(model_id@) is None ==> (r matches Err(m) && m@ == UNKNOWN_MODEL@),
        catalog_index(model_id@) is Some && exists ==> r is Ok,
        catalog_index(model_id@) is Some && !exists ==> (r matches Err(m) && m@ == "Model '"@
            + model_id@ + "' is not installed. Download it from Settings."@),
{
    match find_catalog_entry(model_id) {
        None => Err(UNKNOWN_MODEL.to_owned()),
        Some(_) => {
            if exists {
                Ok(())
            } else {
                Err(not_installed_message(model_id))
            }
        },
    }
}

/// A model downloaded to disk.
pub struct InstalledModel {
    pub id: String,
    pub name: String,
    pub filename: String,
    pub size_bytes: u64,
    pub path: String,
}

impl InstalledModel {
    /// The installed copy of a catalog entry, with its size on disk and path.
    pub fn from_entry(entry: ModelCatalogEntry, size_bytes: u64, path: String) -> (m: Self)
        ensures
            m.id@ == entry.id@,
            m.name@ == entry.name@,
            m.filename@ == entry.filename@,
            m.size_bytes == size_bytes,
            m.path@ == path@,
    {
        InstalledModel {
            id: entry.id,
            name: entry.name,
            filename: entry.filename,
            size_bytes,
            path,
        }
    }
}

/// How far a model download has come: bytes received, and the size expected.
pub struct DownloadProgress {
    pub downloaded: u64,
    pub total: u64,
}

impl DownloadProgress {
    /// A download about to begin: the expected size is the length the server
    /// announces, or else the catalog's size for the model.
    pub fn start(content_length: Option<u64>, catalog_size: u64) -> (p: Self)
        ensures
            p.downloaded == 0,
            p.total == (match content_length {
                Some(n) => n,
                None => catalog_size,
            }),
    {
        let total = match content_length {
            Some(n) => n,
            None => catalog_size,
        };
        DownloadProgress { downloaded: 0, total }
    }

    /// Counts a chunk of `chunk_len` bytes as received.
    pub fn advance(&mut self, chunk_len: usize)
        requires
            old(self).downloaded + chunk_len <= u64::MAX,
        ensures
            final(self).downloaded == old(self).downloaded + chunk_len,
            final(self).total == old(self).total,
    {
        self.downloaded = self.downloaded + chunk_len as u64;
    }

    /// The progress reported once the file is in place: all of the expected size.
    pub fn completed(&self) -> (r: (u64, u64))
        ensures
            r == (self.total, self.total),
    {
        (self.total, self.total)
    }
}

} // verus!
