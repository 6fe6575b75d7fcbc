//! The videos that a benchmark reads: those given, or those of a manifest.
use vstd::prelude::*;

use crate::sorting::{sort, sorted, Keyed};

verus! {

/// A video that is read.
#[derive(Debug)]
pub struct VideoSource {
    pub input_index: usize,
    pub path: String,
}

/// A row of the manifest.
#[derive(Debug)]
pub struct ManifestRow {
    pub input_index: usize,
    pub file: String,
    pub size_bytes: u64,
}

impl Keyed for ManifestRow {
    open spec fn key(&self) -> int {
        self.input_index as int
    }

    fn may_precede(&self, other: &ManifestRow) -> (res: bool) {
        self.input_index <= other.input_index
    }
}

/// Why the videos are not known.
#[derive(Debug, Clone, Copy, PartialEq, Eq, Structural)]
pub enum ManifestError {
    /// The path of a video, at a place, leads nowhere.
    Unresolved(usize),
    /// The manifest has no rows.
    NoVideos,
    /// A row has another number than its place: the place, then the number.
    NotContiguous(usize, usize),
    /// The file of a row, at a place, cannot be looked at.
    NoMetadata(usize),
    /// The file of a row, at a place, has another size: the one stated, then
    /// the one found.
    SizeMismatch(usize, u64, u64),
}

/// What the file system says of the file of a row.
#[derive(Debug)]
pub struct FileProbe {
    /// The bytes of the file, if it can be looked at.
    pub size: Option<u64>,
    /// The path of the file, if it can be resolved.
    pub path: Option<String>,
}

/// What some videos come to: each as it was given, or the first error.
pub open spec fn explicit_error(paths: Seq<Option<String>>) -> Option<ManifestError>
    decreases paths.len(),
{
    if paths.len() == 0 {
        None
    } else {
        match explicit_error(paths.drop_last()) {
            Some(error) => Some(error),
            None => if paths.last() is None {
                Some(ManifestError::Unresolved((paths.len() - 1) as usize))
            } else {
                None
            },
        }
    }
}

/// The videos that were given, in the order in which they were given. Each path
/// was resolved, or leads nowhere.
pub fn explicit_videos(paths: Vec<Option<String>>) -> (res: Result<Vec<VideoSource>, ManifestError>)
    ensures
        match res {
            Err(error) => explicit_error(paths@) == Some(error),
            Ok(videos) => {
                &&& explicit_error(paths@) is None
                &&& videos@.len() == paths@.len()
                &&& forall|i: int|
                    0 <= i < videos@.len() ==> (#[trigger] videos@[i]).input_index == i && Some(
                        videos@[i].path,
                    ) == paths@[i]
            },
        },
{
    let ghost all = paths@;
    let mut videos: Vec<VideoSource> = Vec::new();
    proof {
        assert(all.take(0) =~= seq![]);
    }
    for path in it: paths.into_iter()
        invariant
            it.seq() == all,
            explicit_error(all.take(it.index())) is None,
            videos@.len() == it.index(),
            forall|i: int|
                0 <= i < videos@.len() ==> (#[trigger] videos@[i]).input_index == i && Some(
                    videos@[i].path,
                ) == all[i],
    {
        let index: usize = videos.len();
        proof {
            assert(all.take(it.index() + 1).drop_last() =~= all.take(it.index()));
            assert(all.take(it.index() + 1).last() == path);
        }
        match path {
            Some(path) => {
                videos.push(VideoSource { input_index: index, path });
            },
            None => {
                proof {
                    explicit_error_stays(all, it.index() + 1);
                }
                return Err(ManifestError::Unresolved(index));
            },
        }
    }
    proof {
        assert(all.take(all.len() as int) =~= all);
    }
    Ok(videos)
}

proof fn explicit_error_stays(paths: Seq<Option<String>>, count: int)
    requires
        0 <= count <= paths.len(),
        explicit_error(paths.take(count)) is Some,
    ensures
        explicit_error(paths) == explicit_error(paths.take(count)),
    decreases paths.len(),
{
    if count == paths.len() {
        assert(paths.take(count) =~= paths);
    } else {
        assert(paths.drop_last().take(count) =~= paths.take(count));
        explicit_error_stays(paths.drop_last(), count);
    }
}

/// The rows of a manifest in the order of their numbers.
pub fn order_rows(rows: Vec<ManifestRow>) -> (res: Result<Vec<ManifestRow>, ManifestError>)
    ensures
        rows@.len() == 0 ==> res == Err::<Vec<ManifestRow>, ManifestError>(ManifestError::NoVideos),
        rows@.len() > 0 ==> (res matches Ok(ordered) && ordered@ == sorted(rows@)),
{
    if rows.len() == 0 {
        return Err(ManifestError::NoVideos);
    }
    Ok(sort(rows))
}

/// What is wrong with a row at a place.
pub open spec fn row_error(row: ManifestRow, probe: FileProbe, place: int) -> Option<ManifestError> {
    if row.input_index != place {
        Some(ManifestError::NotContiguous(place as usize, row.input_index))
    } else {
        match probe.size {
            None => Some(ManifestError::NoMetadata(place as usize)),
            Some(size) => if size != row.size_bytes {
                Some(ManifestError::SizeMismatch(place as usize, row.size_bytes, size))
            } else if probe.path is None {
                Some(ManifestError::Unresolved(place as usize))
            } else {
                None
            },
        }
    }
}

/// What is wrong with the first row that something is wrong with.
pub open spec fn rows_error(rows: Seq<ManifestRow>, probes: Seq<FileProbe>) -> Option<ManifestError>
    decreases rows.len(),
{
    if rows.len() == 0 {
        None
    } else {
        match rows_error(rows.drop_last(), probes.drop_last()) {
            Some(error) => Some(error),
            None => row_error(rows.last(), probes.last(), rows.len() - 1),
        }
    }
}

proof fn rows_error_stays(rows: Seq<ManifestRow>, probes: Seq<FileProbe>, count: int)
    requires
        rows.len() == probes.len(),
        0 <= count <= rows.len(),
        rows_error(rows.take(count), probes.take(count)) is Some,
    ensures
        rows_error(rows, probes) == rows_error(rows.take(count), probes.take(count)),
    decreases rows.len(),
{
    if count == rows.len() {
        assert(rows.take(count) =~= rows);
        assert(probes.take(count) =~= probes);
    } else {
        assert(rows.drop_last().take(count) =~= rows.take(count));
        assert(probes.drop_last().take(count) =~= probes.take(count));
        rows_error_stays(rows.drop_last(), probes.drop_last(), count);
    }
}

/// The videos of a manifest whose rows are in order: the rows are numbered from
/// zero without a gap, and each file has the size that its row states.
pub fn manifest_videos(rows: &Vec<ManifestRow>, probes: Vec<FileProbe>) -> (res: Result<
    Vec<VideoSource>,
    ManifestError,
>)
    requires
        rows@.len() == probes@.len(),
    ensures
        match res {
            Err(error) => rows_error(rows@, probes@) == Some(error),
            Ok(videos) => {
                &&& rows_error(rows@, probes@) is None
                &&& videos@.len() == rows@.len()
                &&& forall|i: int|
                    0 <= i < videos@.len() ==> (#[trigger] videos@[i]).input_index == i && Some(
                        videos@[i].path,
                    ) == probes@[i].path
            },
        },
{
    let ghost all = probes@;
    let mut videos: Vec<VideoSource> = Vec::new();
    proof {
        assert(rows@.take(0) =~= seq![]);
    }
    for probe in it: probes.into_iter()
        invariant
            it.seq() == all,
            rows@.len() == all.len(),
            rows_error(rows@.take(it.index()), all.take(it.index())) is None,
            videos@.len() == it.index(),
            forall|i: int|
                0 <= i < videos@.len() ==> (#[trigger] videos@[i]).input_index == i && Some(
                    videos@[i].path,
                ) == all[i].path,
    {
        let place: usize = videos.len();
        let row: &ManifestRow = &rows[place];
        proof {
            let next = it.index() + 1;
            assert(rows@.take(next).drop_last() =~= rows@.take(it.index()));
            assert(all.take(next).drop_last() =~= all.take(it.index()));
            assert(all.take(next).last() == probe);
            assert(rows@.take(next).last() == *row);
            if row_error(*row, probe, place as int) is Some {
                rows_error_stays(rows@, all, next);
            }
        }
        if row.input_index != place {
            return Err(ManifestError::NotContiguous(place, row.input_index));
        }
        match probe.size {
            None => {
                return Err(ManifestError::NoMetadata(place));
            },
            Some(size) => {
                if size != row.size_bytes {
                    return Err(ManifestError::SizeMismatch(place, row.size_bytes, size));
                }
            },
        }
        match probe.path {
            None => {
                return Err(ManifestError::Unresolved(place));
            },
            Some(path) => {
                videos.push(VideoSource { input_index: row.input_index, path });
            },
        }
    }
    proof {
        assert(rows@.take(rows@.len() as int) =~= rows@);
        assert(all.take(all.len() as int) =~= all);
    }
    Ok(videos)
}

/// The videos that were given are known exactly where each path leads somewhere;
/// else the first that does not is told of.
pub proof fn first_unresolved_path_is_told(paths: Seq<Option<String>>)
    requires
        paths.len() <= usize::MAX,
    ensures
        explicit_error(paths) is None <==> forall|i: int|
            0 <= i < paths.len() ==> (#[trigger] paths[i]) is Some,
        explicit_error(paths) matches Some(error) ==> exists|k: int|
            {
                &&& 0 <= k < paths.len()
                &&& (#[trigger] paths[k]) is None
                &&& error == ManifestError::Unresolved(k as usize)
                &&& forall|i: int| 0 <= i < k ==> (#[trigger] paths[i]) is Some
            },
    decreases paths.len(),
{
    if paths.len() > 0 {
        let before = paths.drop_last();
        let last = paths.len() - 1;
        first_unresolved_path_is_told(before);
        assert(paths[last] == paths.last());
        assert forall|i: int| 0 <= i < last implies #[trigger] paths[i] == before[i] by {}
        if let Some(error) = explicit_error(before) {
            let k = choose|k: int|
                {
                    &&& 0 <= k < before.len()
                    &&& (#[trigger] before[k]) is None
                    &&& error == ManifestError::Unresolved(k as usize)
                    &&& forall|i: int| 0 <= i < k ==> (#[trigger] before[i]) is Some
                };
            assert(paths[k] is None);
        } else {
            assert forall|i: int| 0 <= i < last implies (#[trigger] paths[i]) is Some by {
                assert(before[i] is Some);
            }
        }
    }
}

/// Whether a row at a place is in order: it has the number of its place, and its
/// file can be looked at, has the stated size and can be resolved.
pub open spec fn row_is_in_order(row: ManifestRow, probe: FileProbe, place: int) -> bool {
    &&& row.input_index == place
    &&& probe.size == Some(row.size_bytes)
    &&& probe.path is Some
}

/// The videos of a manifest are known exactly where all rows are in order; else
/// the first row that is not is told of: with its number where that is wrong, else
/// with its size where that is wrong.
pub proof fn first_bad_row_is_told(rows: Seq<ManifestRow>, probes: Seq<FileProbe>)
    requires
        rows.len() == probes.len(),
        rows.len() <= usize::MAX,
    ensures
        rows_error(rows, probes) is None <==> forall|i: int|
            0 <= i < rows.len() ==> row_is_in_order(#[trigger] rows[i], probes[i], i),
        rows_error(rows, probes) matches Some(error) ==> exists|k: int|
            {
                &&& 0 <= k < rows.len()
                &&& is_told_of(#[trigger] rows[k], probes[k], k, error)
                &&& forall|i: int|
                    0 <= i < k ==> row_is_in_order(#[trigger] rows[i], probes[i], i)
            },
    decreases rows.len(),
{
    if rows.len() > 0 {
        let before = rows.drop_last();
        let probed = probes.drop_last();
        let last = rows.len() - 1;
        first_bad_row_is_told(before, probed);
        assert(rows[last] == rows.last() && probes[last] == probes.last());
        assert forall|i: int| 0 <= i < last implies #[trigger] rows[i] == before[i] && probes[i]
            == probed[i] by {}
        if let Some(error) = rows_error(before, probed) {
            let k = choose|k: int|
                {
                    &&& 0 <= k < before.len()
                    &&& is_told_of(#[trigger] before[k], probed[k], k, error)
                    &&& forall|i: int|
                        0 <= i < k ==> row_is_in_order(#[trigger] before[i], probed[i], i)
                };
            assert(rows[k] == before[k] && probes[k] == probed[k]);
            assert(is_told_of(rows[k], probes[k], k, error));
            assert forall|i: int| 0 <= i < k implies row_is_in_order(
                #[trigger] rows[i],
                probes[i],
                i,
            ) by {
                assert(row_is_in_order(before[i], probed[i], i));
            }
            assert(!row_is_in_order(rows[k], probes[k], k));
        } else {
            assert forall|i: int| 0 <= i < last implies row_is_in_order(
                #[trigger] rows[i],
                probes[i],
                i,
            ) by {
                assert(row_is_in_order(before[i], probed[i], i));
            }
            if let Some(error) = rows_error(rows, probes) {
                assert(is_told_of(rows[last], probes[last], last, error));
                assert(!row_is_in_order(rows[last], probes[last], last));
            }
        }
    }
}

/// Whether an error tells what is wrong with a row at a place.
pub open spec fn is_told_of(
    row: ManifestRow,
    probe: FileProbe,
    place: int,
    error: ManifestError,
) -> bool {
    match error {
        ManifestError::NotContiguous(at, number) => at == place && number == row.input_index
            && row.input_index != place,
        ManifestError::NoMetadata(at) => at == place && row.input_index == place
            && probe.size is None,
        ManifestError::SizeMismatch(at, stated, found) => at == place && row.input_index == place
            && stated == row.size_bytes && probe.size == Some(found) && found != stated,
        ManifestError::Unresolved(at) => at == place && row.input_index == place && probe.size
            == Some(row.size_bytes) && probe.path is None,
        ManifestError::NoVideos => false,
    }
}

} // verus!
