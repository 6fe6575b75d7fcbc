//! Which libraries are loaded before the plugin itself, and in which order.
use vstd::prelude::*;

use crate::text::{chars_of, extend, string_of};

verus! {

/// A library that is loaded.
#[derive(Debug, Clone, Copy, PartialEq, Eq)]
pub enum LibraryFile {
    /// One of FFmpeg, in the directory for dependencies.
    Dependency(&'static str),
    /// The plugin itself, beside the loader.
    Core(&'static str),
}

/// The libraries of FFmpeg. Each stands behind those that it needs.
pub open spec fn dependency_names() -> Seq<&'static str> {
    seq![
        "avutil-60.dll",
        "swresample-6.dll",
        "avcodec-62.dll",
        "avformat-62.dll",
        "swscale-9.dll",
        "avfilter-11.dll",
        "avdevice-62.dll",
    ]
}

/// The libraries that are still to be loaded, in their order: those of FFmpeg
/// unless any is loaded, then the plugin unless it is.
pub open spec fn libraries_to_load(dependencies_loaded: usize, core_loaded: bool) -> Seq<
    LibraryFile,
> {
    (if dependencies_loaded == 0 {
        dependency_names().map_values(|name: &'static str| LibraryFile::Dependency(name))
    } else {
        seq![]
    }) + (if core_loaded {
        seq![]
    } else {
        seq![LibraryFile::Core("ffmpeg_aui2_core.dll")]
    })
}

/// The libraries that are still to be loaded, in their order. Loading stops at
/// the first that fails; those loaded before it stay.
pub fn try_initialize_core_handle(dependencies_loaded: usize, core_loaded: bool) -> (res: Vec<
    LibraryFile,
>)
    ensures
        res@ == libraries_to_load(dependencies_loaded, core_loaded),
{
    let mut res: Vec<LibraryFile> = Vec::new();
    if dependencies_loaded == 0 {
        res.push(LibraryFile::Dependency("avutil-60.dll"));
        res.push(LibraryFile::Dependency("swresample-6.dll"));
        res.push(LibraryFile::Dependency("avcodec-62.dll"));
        res.push(LibraryFile::Dependency("avformat-62.dll"));
        res.push(LibraryFile::Dependency("swscale-9.dll"));
        res.push(LibraryFile::Dependency("avfilter-11.dll"));
        res.push(LibraryFile::Dependency("avdevice-62.dll"));
    }
    if !core_loaded {
        res.push(LibraryFile::Core("ffmpeg_aui2_core.dll"));
    }
    proof {
        assert(res@ =~= libraries_to_load(dependencies_loaded, core_loaded));
    }
    res
}

/// Once everything was loaded, nothing is loaded again.
pub proof fn libraries_are_loaded_once(dependencies_loaded: usize)
    requires
        dependencies_loaded >= dependency_names().len(),
    ensures
        libraries_to_load(dependencies_loaded, true) == Seq::<LibraryFile>::empty(),
{
    assert(libraries_to_load(dependencies_loaded, true) =~= Seq::<LibraryFile>::empty());
}

/// What is told of a library that cannot be loaded.
pub open spec fn load_error_text(file: LibraryFile) -> Seq<char> {
    match file {
        LibraryFile::Dependency(name) => "Failed to load dependency: "@ + name@,
        LibraryFile::Core(name) => "Failed to load core library: "@ + name@,
    }
}

/// What is told of a library that cannot be loaded.
pub fn load_error(file: LibraryFile) -> (res: String)
    ensures
        res@ == load_error_text(file),
{
    match file {
        LibraryFile::Dependency(name) => {
            let mut text: Vec<char> = chars_of("Failed to load dependency: ");
            extend(&mut text, &chars_of(name));
            string_of(&text)
        },
        LibraryFile::Core(name) => {
            let mut text: Vec<char> = chars_of("Failed to load core library: ");
            extend(&mut text, &chars_of(name));
            string_of(&text)
        },
    }
}

/// What the user is told when the plugin cannot be loaded.
pub fn failure_message(error: &str) -> (res: String)
    ensures
        res@ == "Failed to initialize core library: "@ + error@
            + "\n\nPlease try reinstalling the plugin."@,
{
    let mut text: Vec<char> = chars_of("Failed to initialize core library: ");
    extend(&mut text, &chars_of(error));
    extend(&mut text, &chars_of("\n\nPlease try reinstalling the plugin."));
    string_of(&text)
}

/// The libraries of FFmpeg are loaded together or not at all, and the plugin,
/// unless it is loaded, behind them.
pub proof fn plugin_is_loaded_last(dependencies_loaded: usize, core_loaded: bool)
    ensures
        ({
            let files = libraries_to_load(dependencies_loaded, core_loaded);
            let needed = if dependencies_loaded == 0 {
                7int
            } else {
                0
            };
            &&& files.len() == needed + (if core_loaded {
                0int
            } else {
                1
            })
            &&& forall|i: int| 0 <= i < needed ==> (#[trigger] files[i]) is Dependency
            &&& !core_loaded ==> files.last() is Core
        }),
{
}

} // verus!
