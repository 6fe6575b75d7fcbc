use ffmpeg_aui2::manifest::{
    explicit_videos, manifest_videos, order_rows, FileProbe, ManifestError, ManifestRow,
};

fn row(input_index: usize, size_bytes: u64) -> ManifestRow {
    ManifestRow { input_index, file: format!("{input_index}.mp4"), size_bytes }
}

fn probe(size: Option<u64>, path: Option<&str>) -> FileProbe {
    FileProbe { size, path: path.map(|path| path.to_string()) }
}

#[test]
fn explicit_videos_keep_argument_order() {
    let current = "/videos/a.mp4".to_string();
    let sources = explicit_videos(vec![Some(current.clone()), Some(current)]).unwrap();

    assert_eq!(sources.len(), 2);
    assert_eq!(sources[0].input_index, 0);
    assert_eq!(sources[1].input_index, 1);
    assert_eq!(sources[1].path, "/videos/a.mp4");
}

#[test]
fn videos_that_lead_nowhere_are_named() {
    let paths = vec![Some("a".to_string()), None, None];
    assert_eq!(explicit_videos(paths).unwrap_err(), ManifestError::Unresolved(1));
}

#[test]
fn rows_are_put_in_order() {
    assert_eq!(order_rows(Vec::new()).unwrap_err(), ManifestError::NoVideos);
    let rows = order_rows(vec![row(2, 1), row(0, 2), row(1, 3), row(0, 4)]).unwrap();
    let found: Vec<(usize, u64)> =
        rows.iter().map(|row| (row.input_index, row.size_bytes)).collect();
    assert_eq!(found, vec![(0, 2), (0, 4), (1, 3), (2, 1)]);
}

#[test]
fn manifests_are_checked_row_by_row() {
    let rows = vec![row(0, 10), row(1, 20)];
    let good = || probe(Some(10), Some("/0.mp4"));
    let videos = manifest_videos(&rows, vec![good(), probe(Some(20), Some("/1.mp4"))]).unwrap();
    assert_eq!(videos[1].input_index, 1);
    assert_eq!(videos[1].path, "/1.mp4");
    assert_eq!(
        manifest_videos(&rows, vec![good(), probe(None, Some("/1.mp4"))]).unwrap_err(),
        ManifestError::NoMetadata(1)
    );
    assert_eq!(
        manifest_videos(&rows, vec![good(), probe(Some(21), Some("/1.mp4"))]).unwrap_err(),
        ManifestError::SizeMismatch(1, 20, 21)
    );
    assert_eq!(
        manifest_videos(&rows, vec![good(), probe(Some(20), None)]).unwrap_err(),
        ManifestError::Unresolved(1)
    );
    let gap = vec![row(0, 10), row(2, 20)];
    assert_eq!(
        manifest_videos(&gap, vec![good(), probe(None, None)]).unwrap_err(),
        ManifestError::NotContiguous(1, 2)
    );
    let doubled = vec![row(0, 10), row(0, 20)];
    assert_eq!(
        manifest_videos(&doubled, vec![good(), probe(Some(20), Some("/1.mp4"))]).unwrap_err(),
        ManifestError::NotContiguous(1, 0)
    );
}
