//! Rules for packing folders into `.tar.gz` archives and reading them back.

use vstd::prelude::*;
use crate::text::{contains_seq, ends_with_seq, err_with, occurs_at, ok_with, text_contains, text_ends_with, text_equal};
use crate::path::{path_extension, path_file_name};
use crate::lines::{decode_lossy, lossy_text};

verus! {

/// The gzip setting a compression level selects.
#[derive(PartialEq, Eq, Structural, Clone, Copy, Debug)]
pub enum CompressionPreset {
    /// Level 0: store without compressing.
    NoCompression,
    /// Levels 1 to 3: fast compression.
    Fast,
    /// Levels 4 to 6: the default balance.
    Balanced,
    /// Levels 7 to 9, and any higher level: best compression.
    Best,
}

/// The preset for a compression level.
pub open spec fn preset_for(level: u32) -> CompressionPreset {
    if level == 0 {
        CompressionPreset::NoCompression
    } else if level <= 3 {
        CompressionPreset::Fast
    } else if level <= 6 {
        CompressionPreset::Balanced
    } else {
        CompressionPreset::Best
    }
}

/// The gzip preset for a compression level: 0 stores, 1 to 3 are fast,
/// 4 to 6 balanced, 7 and above best.
pub fn compression_preset(level: u32) -> (res: CompressionPreset)
    ensures
        res == preset_for(level),
{
    match level {
        0 => CompressionPreset::NoCompression,
        1..=3 => CompressionPreset::Fast,
        4..=6 => CompressionPreset::Balanced,
        _ => CompressionPreset::Best,
    }
}

/// The highest compression level, and the one used when none is asked for.
pub const MAX_LEVEL: u32 = 9u32;

/// What `pack_folder` does with its options: the names to leave out and the
/// compression level.
pub struct PackSettings {
    pub ignore: Vec<String>,
    pub level: u32,
}

/// The level that the options select.
pub open spec fn level_for(compression: Option<u32>, max_compression: Option<bool>) -> u32 {
    if max_compression == Some(true) {
        MAX_LEVEL
    } else {
        match compression {
            Some(l) => if l < MAX_LEVEL { l } else { MAX_LEVEL },
            None => MAX_LEVEL,
        }
    }
}

/// The settings for `pack_folder`, from the options that were given (an
/// option that is missing or of the wrong type counts as not given): the
/// ignore list, empty by default; the level, 9 by default, capped at 9, and
/// 9 whenever `max_compression` is true.
pub fn pack_settings(ignore: Option<Vec<String>>, compression: Option<u32>, max_compression: Option<bool>) -> (res: PackSettings)
    ensures
        ignore matches Some(v) ==> res.ignore@ == v@,
        ignore is None ==> res.ignore@.len() == 0,
        res.level == level_for(compression, max_compression),
        res.level <= MAX_LEVEL,
{
    let list = match ignore {
        Some(v) => v,
        None => Vec::new(),
    };
    let mut level = MAX_LEVEL;
    if let Some(l) = compression {
        level = if l < MAX_LEVEL { l } else { MAX_LEVEL };
    }
    if let Some(true) = max_compression {
        level = MAX_LEVEL;
    }
    PackSettings { ignore: list, level }
}

/// The order of presets, from storing to best compression.
pub open spec fn preset_rank(p: CompressionPreset) -> int {
    match p {
        CompressionPreset::NoCompression => 0,
        CompressionPreset::Fast => 1,
        CompressionPreset::Balanced => 2,
        CompressionPreset::Best => 3,
    }
}

/// The level `pack_folder` uses: a level asked for that is at most 9 is
/// kept as it is, unless best compression is asked for; a higher level is
/// cut to 9; no level, or best compression, gives 9.
pub proof fn lemma_level_kept(l: u32, max_compression: Option<bool>)
    ensures
        l <= 9 && max_compression != Some(true) ==> level_for(Some(l), max_compression) == l,
        l > 9 ==> level_for(Some(l), max_compression) == 9,
        level_for(None, max_compression) == 9,
        level_for(Some(l), Some(true)) == 9,
        level_for(Some(l), max_compression) <= 9,
{
}

/// Level 0, and only level 0, stores without compressing; a higher level
/// never compresses less; so asking for level 0 without best compression
/// stores the archive.
pub proof fn lemma_level_zero_stores(level: u32, other: u32, max_compression: Option<bool>)
    ensures
        preset_for(level) == CompressionPreset::NoCompression <==> level == 0,
        level <= other ==> preset_rank(preset_for(level)) <= preset_rank(preset_for(other)),
        max_compression != Some(true) ==> preset_for(level_for(Some(0), max_compression))
            == CompressionPreset::NoCompression,
        level >= 7 ==> preset_for(level) == CompressionPreset::Best,
{
}

/// The archive file name for a requested destination: kept when it already
/// ends in `.tar.gz` or `.tgz`, else with `.tar.gz` added.
pub open spec fn archive_name(dst: Seq<char>) -> Seq<char> {
    if ends_with_seq(dst, ".tar.gz"@) || ends_with_seq(dst, ".tgz"@) {
        dst
    } else {
        dst + ".tar.gz"@
    }
}

/// The archive file name that `pack_folder` writes for `dst`.
pub fn archive_file_name(dst: &str) -> (res: String)
    ensures
        res@ == archive_name(dst@),
{
    if text_ends_with(dst, ".tar.gz") || text_ends_with(dst, ".tgz") {
        dst.to_owned()
    } else {
        let mut name = dst.to_owned();
        name.append(".tar.gz");
        name
    }
}

/// Naming an archive twice is naming it once: the name always ends in one of
/// the two archive suffixes.
pub proof fn lemma_archive_name_idempotent(dst: Seq<char>)
    ensures
        ends_with_seq(archive_name(dst), ".tar.gz"@) || ends_with_seq(archive_name(dst), ".tgz"@),
        archive_name(archive_name(dst)) == archive_name(dst),
{
    reveal_strlit(".tar.gz");
    reveal_strlit(".tgz");
    if !(ends_with_seq(dst, ".tar.gz"@) || ends_with_seq(dst, ".tgz"@)) {
        let s = dst + ".tar.gz"@;
        assert(s.subrange(s.len() - 7, s.len() as int) =~= ".tar.gz"@);
    }
}

/// `pattern` leaves out the entry at `path`, whose file name is `file_name`
/// (empty when it has none) and extension `extension`: it is the file name,
/// it occurs in the path, or it is the extension with a leading dot.
pub open spec fn pattern_ignores(
    pattern: Seq<char>,
    path: Seq<char>,
    file_name: Seq<char>,
    extension: Option<Seq<char>>,
) -> bool {
    ||| pattern == file_name
    ||| contains_seq(path, pattern)
    ||| (extension matches Some(e) && pattern == seq!['.'] + e)
}

/// Some pattern of the list leaves the entry out.
pub open spec fn list_ignores(
    list: Seq<String>,
    path: Seq<char>,
    file_name: Seq<char>,
    extension: Option<Seq<char>>,
) -> bool {
    exists|i: int| 0 <= i < list.len() && pattern_ignores(#[trigger] list[i]@, path, file_name, extension)
}

/// The view of an optional string.
pub open spec fn opt_view(s: Option<String>) -> Option<Seq<char>> {
    match s {
        Some(t) => Some(t@),
        None => None,
    }
}

/// Whether a pattern of `list` leaves out the entry at `path`, given the
/// entry's file name and extension.
pub fn ignore_matches(path: &str, file_name: &str, extension: &Option<String>, list: &Vec<String>) -> (res: bool)
    ensures
        res == list_ignores(list@, path@, file_name@, opt_view(*extension)),
{
    let dotted: Option<String> = match extension {
        Some(e) => {
            let mut d = ".".to_owned();
            d.append(e.as_str());
            proof {
                reveal_strlit(".");
                assert(d@ =~= seq!['.'] + e@);
            }
            Some(d)
        },
        None => None,
    };
    let mut i: usize = 0;
    while i < list.len()
        invariant
            i <= list.len(),
            dotted matches Some(d) ==> (extension matches Some(e) && d@ == seq!['.'] + e@),
            dotted is None ==> extension is None,
            forall|j: int| 0 <= j < i ==> !pattern_ignores(#[trigger] list@[j]@, path@, file_name@, opt_view(*extension)),
        decreases list.len() - i,
    {
        let pattern = list[i].as_str();
        let mut hit = text_equal(pattern, file_name) || text_contains(path, pattern);
        if !hit {
            if let Some(d) = &dotted {
                hit = text_equal(pattern, d.as_str());
            }
        }
        if hit {
            assert(pattern_ignores(list@[i as int]@, path@, file_name@, opt_view(*extension)));
            return true;
        }
        i += 1;
    }
    false
}

/// Whether `pack_folder` leaves out the entry at `path`: exactly when some
/// pattern of the list occurs in the path. The file-name and `.extension`
/// tests of `ignore_matches` add nothing to this, since std's file name and
/// extension are taken from the path's own text.
pub fn should_ignore(path: &str, list: &Vec<String>) -> (res: bool)
    ensures
        res == (list@.len() > 0 && exists|i: int| 0 <= i < list@.len() && contains_seq(path@, #[trigger] list@[i]@)),
{
    if list.len() == 0 {
        return false;
    }
    let file_name = match path_file_name(path) {
        Some(n) => n,
        None => String::new(),
    };
    let extension = path_extension(path);
    let res = ignore_matches(path, file_name.as_str(), &extension, list);
    proof {
        assert(contains_seq(path@, file_name@)) by {
            if file_name@.len() == 0 {
                assert(path@.subrange(0, 0) =~= file_name@);
                assert(occurs_at(path@, file_name@, 0));
            }
        }
        if exists|i: int| 0 <= i < list@.len() && contains_seq(path@, #[trigger] list@[i]@) {
            let i = choose|i: int| 0 <= i < list@.len() && contains_seq(path@, #[trigger] list@[i]@);
            assert(pattern_ignores(list@[i]@, path@, file_name@, opt_view(extension)));
        }
        if res {
            let i = choose|i: int|
                0 <= i < list@.len() && pattern_ignores(#[trigger] list@[i]@, path@, file_name@, opt_view(extension));
            let p = list@[i]@;
            if p == file_name@ {
                assert(contains_seq(path@, p));
            } else if !contains_seq(path@, p) {
                let e = extension.unwrap()@;
                assert(p == seq!['.'] + e);
                assert(contains_seq(path@, p));
            }
        }
    }
    res
}

/// The running count of an archive's entries and of their uncompressed
/// sizes, as `archive_info` reports them.
pub struct ArchiveTally {
    pub files: i32,
    pub total_size: u64,
}

impl ArchiveTally {
    /// No entries counted yet.
    pub fn new() -> (res: ArchiveTally)
        ensures
            res.files == 0,
            res.total_size == 0,
    {
        ArchiveTally { files: 0, total_size: 0 }
    }

    /// Whether one more entry of `size` bytes can be counted without
    /// overflowing either count.
    pub fn can_add(&self, size: u64) -> (res: bool)
        ensures
            res == (self.files < i32::MAX && self.total_size + size <= u64::MAX),
    {
        self.files < i32::MAX && size <= u64::MAX - self.total_size
    }

    /// Counts one more entry of `size` bytes.
    pub fn add(&mut self, size: u64)
        requires
            old(self).files < i32::MAX,
            old(self).total_size + size <= u64::MAX,
        ensures
            final(self).files == old(self).files + 1,
            final(self).total_size == old(self).total_size + size,
    {
        self.files = self.files + 1;
        self.total_size = self.total_size + size;
    }
}

/// The path bytes of each entry of a `.tar.gz` archive with these bytes, in
/// order, as `flate2`'s `GzDecoder` and `tar`'s `Archive::entries` read them;
/// or the text of the first error met.
pub uninterp spec fn tar_gz_paths(bytes: Seq<u8>) -> Result<Seq<Seq<u8>>, Seq<char>>;

/// The size in its header of each entry of a `.tar.gz` archive with these
/// bytes, in order, as `GzDecoder`, `Archive::entries` and `Header::size` read
/// them; or the text of the first error met.
pub uninterp spec fn tar_gz_sizes(bytes: Seq<u8>) -> Result<Seq<u64>, Seq<char>>;

/// Reads the entries of a `.tar.gz` archive from its bytes with
/// `flate2::read::GzDecoder` and `tar::Archive::entries`, taking each
/// entry's `path_bytes` (long GNU names and pax `path` records included).
/// Claims that the result depends on the bytes alone (`tar_gz_paths`): the
/// reader is an in-memory slice, and the error is the text of the first
/// `io::Error` met.
#[verifier::external_body]
fn read_tar_gz_paths(bytes: &[u8]) -> (res: Result<Vec<Vec<u8>>, String>)
    ensures
        res is Ok <==> tar_gz_paths(bytes@) is Ok,
        res matches Ok(v) ==> ok_with(tar_gz_paths(bytes@), v@.map_values(|p: Vec<u8>| p@)),
        res matches Err(m) ==> err_with(tar_gz_paths(bytes@), m@),
{
    let mut archive = tar::Archive::new(flate2::read::GzDecoder::new(bytes));
    let entries = archive.entries().map_err(|e| e.to_string())?;
    let mut out = Vec::new();
    for entry in entries {
        let entry = entry.map_err(|e| e.to_string())?;
        out.push(entry.path_bytes().into_owned());
    }
    Ok(out)
}

/// Reads the entries of a `.tar.gz` archive from its bytes with
/// `flate2::read::GzDecoder` and `tar::Archive::entries`, taking each
/// entry's `header().size()`. Claims that the result depends on the bytes
/// alone (`tar_gz_sizes`): the reader is an in-memory slice, and the error
/// is the text of the first `io::Error` met.
#[verifier::external_body]
fn read_tar_gz_sizes(bytes: &[u8]) -> (res: Result<Vec<u64>, String>)
    ensures
        res is Ok <==> tar_gz_sizes(bytes@) is Ok,
        res matches Ok(v) ==> ok_with(tar_gz_sizes(bytes@), v@),
        res matches Err(m) ==> err_with(tar_gz_sizes(bytes@), m@),
{
    let mut archive = tar::Archive::new(flate2::read::GzDecoder::new(bytes));
    let entries = archive.entries().map_err(|e| e.to_string())?;
    let mut out = Vec::new();
    for entry in entries {
        let entry = entry.map_err(|e| e.to_string())?;
        out.push(entry.header().size().map_err(|e| e.to_string())?);
    }
    Ok(out)
}

/// `list_archive`: the name of each entry of the archive with these bytes,
/// in order, each path read as UTF-8 (invalid sequences replaced); fails
/// with the reader's error text exactly when reading the archive fails.
pub fn archive_entry_names(bytes: &[u8]) -> (res: Result<Vec<String>, String>)
    ensures
        res is Ok <==> tar_gz_paths(bytes@) is Ok,
        res matches Err(m) ==> err_with(tar_gz_paths(bytes@), m@),
        res matches Ok(v) ==> (tar_gz_paths(bytes@) matches Ok(ps) && v@.len() == ps.len() && forall|i: int|
            0 <= i < ps.len() ==> #[trigger] v@[i]@ == lossy_text(ps[i])),
{
    match read_tar_gz_paths(bytes) {
        Err(m) => Err(m),
        Ok(paths) => {
            let ghost ps = paths@.map_values(|p: Vec<u8>| p@);
            let mut names: Vec<String> = Vec::new();
            let mut i: usize = 0;
            while i < paths.len()
                invariant
                    i <= paths.len(),
                    ps == paths@.map_values(|p: Vec<u8>| p@),
                    names@.len() == i,
                    forall|j: int| 0 <= j < i ==> #[trigger] names@[j]@ == lossy_text(ps[j]),
                decreases paths.len() - i,
            {
                let name = decode_lossy(paths[i].as_slice());
                names.push(name);
                i += 1;
            }
            Ok(names)
        },
    }
}

/// The sum of the sizes.
pub open spec fn size_total(sizes: Seq<u64>) -> int
    decreases sizes.len(),
{
    if sizes.len() == 0 {
        0
    } else {
        size_total(sizes.drop_last()) + sizes.last()
    }
}

/// The count of the sizes fits an `i32` and their sum a `u64`.
pub open spec fn tally_fits(sizes: Seq<u64>) -> bool {
    sizes.len() <= i32::MAX && size_total(sizes) <= u64::MAX
}

/// A prefix of the sizes sums to no more than all of them.
proof fn lemma_total_prefix(sizes: Seq<u64>, i: int)
    requires
        0 <= i <= sizes.len(),
    ensures
        size_total(sizes.take(i)) <= size_total(sizes),
    decreases sizes.len(),
{
    if i == sizes.len() {
        assert(sizes.take(i) =~= sizes);
    } else {
        lemma_total_prefix(sizes.drop_last(), i);
        assert(sizes.drop_last().take(i) =~= sizes.take(i));
    }
}

/// Counts entries of these sizes, in order: the tally of all of them, or
/// `None` where the count would overflow an `i32` or the total a `u64`.
pub fn tally_sizes(sizes: &Vec<u64>) -> (res: Option<ArchiveTally>)
    ensures
        res is Some <==> tally_fits(sizes@),
        res matches Some(t) ==> t.files == sizes@.len() && t.total_size == size_total(sizes@),
{
    let mut tally = ArchiveTally::new();
    let mut i: usize = 0;
    while i < sizes.len()
        invariant
            i <= sizes.len(),
            tally.files == i,
            tally.total_size == size_total(sizes@.take(i as int)),
        decreases sizes.len() - i,
    {
        proof {
            assert(sizes@.take(i + 1).drop_last() =~= sizes@.take(i as int));
        }
        if !tally.can_add(sizes[i]) {
            proof {
                lemma_total_prefix(sizes@, i + 1);
            }
            return None;
        }
        tally.add(sizes[i]);
        i += 1;
    }
    proof {
        assert(sizes@.take(sizes@.len() as int) =~= sizes@);
    }
    Some(tally)
}

/// `archive_info`'s counts: the number of entries of the archive with these
/// bytes and the sum of their sizes (`None` where either overflows); fails
/// with the reader's error text exactly when reading the archive fails.
pub fn archive_tally(bytes: &[u8]) -> (res: Result<Option<ArchiveTally>, String>)
    ensures
        res is Ok <==> tar_gz_sizes(bytes@) is Ok,
        res matches Err(m) ==> err_with(tar_gz_sizes(bytes@), m@),
        res matches Ok(t) ==> (tar_gz_sizes(bytes@) matches Ok(s) && (t is Some <==> tally_fits(s)) && (
        t matches Some(c) ==> c.files == s.len() && c.total_size == size_total(s))),
{
    match read_tar_gz_sizes(bytes) {
        Err(m) => Err(m),
        Ok(sizes) => Ok(tally_sizes(&sizes)),
    }
}

} // verus!
