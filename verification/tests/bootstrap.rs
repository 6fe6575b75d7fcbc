use ffmpeg_aui2::bootstrap::{
    failure_message, load_error, try_initialize_core_handle, LibraryFile,
};

#[test]
fn libraries_are_loaded_in_their_order() {
    let all = try_initialize_core_handle(0, false);
    assert_eq!(
        all,
        vec![
            LibraryFile::Dependency("avutil-60.dll"),
            LibraryFile::Dependency("swresample-6.dll"),
            LibraryFile::Dependency("avcodec-62.dll"),
            LibraryFile::Dependency("avformat-62.dll"),
            LibraryFile::Dependency("swscale-9.dll"),
            LibraryFile::Dependency("avfilter-11.dll"),
            LibraryFile::Dependency("avdevice-62.dll"),
            LibraryFile::Core("ffmpeg_aui2_core.dll"),
        ]
    );
    assert_eq!(
        try_initialize_core_handle(3, false),
        vec![LibraryFile::Core("ffmpeg_aui2_core.dll")]
    );
    assert_eq!(try_initialize_core_handle(0, true).len(), 7);
    assert_eq!(try_initialize_core_handle(7, true), vec![]);
}

#[test]
fn failures_are_told() {
    assert_eq!(
        load_error(LibraryFile::Dependency("avutil-60.dll")),
        "Failed to load dependency: avutil-60.dll"
    );
    assert_eq!(
        load_error(LibraryFile::Core("ffmpeg_aui2_core.dll")),
        "Failed to load core library: ffmpeg_aui2_core.dll"
    );
    assert_eq!(
        failure_message("oops"),
        "Failed to initialize core library: oops\n\nPlease try reinstalling the plugin."
    );
}
