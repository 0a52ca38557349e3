//! Installing the library that runs the models.

use std::path::PathBuf;

use vstd::prelude::*;
use vstd::string::StringExecFns;

use crate::model::slice_texts;
use crate::paths::{join_name, path_parts};
use crate::runtime_library::{library_directory, library_directory_parts};
use crate::text::{begins_with, concat3, opt_str, same_text, starts_with};

verus! {

pub open spec fn runtime_version_text() -> Seq<char> {
    "1.24.0.dev20251108004"@
}

/// The version that is installed.
pub fn runtime_version() -> (version: &'static str)
    ensures
        version@ == runtime_version_text(),
{
    "1.24.0.dev20251108004"
}

/// Where the archive with the library is found.
pub fn runtime_wheel_url() -> (url: &'static str)
    ensures
        url@
            == "https://aiinfra.pkgs.visualstudio.com/2692857e-05ef-43b4-ba9c-ccf1c22c437c/_packaging/22685817-9e91-4967-bafe-94c9843c26a9/pypi/download/onnxruntime-gpu/1.24.dev20251108004/onnxruntime_gpu-1.24.0.dev20251108004-cp311-cp311-manylinux_2_27_x86_64.manylinux_2_28_x86_64.whl"@,
{
    "https://aiinfra.pkgs.visualstudio.com/2692857e-05ef-43b4-ba9c-ccf1c22c437c/_packaging/22685817-9e91-4967-bafe-94c9843c26a9/pypi/download/onnxruntime-gpu/1.24.dev20251108004/onnxruntime_gpu-1.24.0.dev20251108004-cp311-cp311-manylinux_2_27_x86_64.manylinux_2_28_x86_64.whl"
}

pub open spec fn required_library_texts() -> Seq<Seq<char>> {
    seq![
        "libonnxruntime.so.1.24.0"@,
        "libonnxruntime_providers_shared.so"@,
        "libonnxruntime_providers_cuda.so"@,
    ]
}

/// The files that an installation needs.
pub fn required_libraries() -> (names: &'static [&'static str])
    ensures
        slice_texts(names@) == required_library_texts(),
{
    let names: &'static [&'static str] = &[
        "libonnxruntime.so.1.24.0",
        "libonnxruntime_providers_shared.so",
        "libonnxruntime_providers_cuda.so",
    ];
    assert(slice_texts(names@) =~= required_library_texts());
    names
}

/// A name in the directory of libraries that leads to another one.
#[derive(Clone, Copy, Debug)]
pub struct LibraryLink {
    pub name: &'static str,
    pub target: &'static str,
}

/// The links to make, in order.
pub fn library_links() -> (links: (LibraryLink, LibraryLink))
    ensures
        links.0.name@ == "libonnxruntime.so.1"@,
        links.0.target@ == "libonnxruntime.so.1.24.0"@,
        links.1.name@ == "libonnxruntime.so"@,
        links.1.target@ == "libonnxruntime.so.1"@,
{
    (
        LibraryLink { name: "libonnxruntime.so.1", target: "libonnxruntime.so.1.24.0" },
        LibraryLink { name: "libonnxruntime.so", target: "libonnxruntime.so.1" },
    )
}

// ---------------------------------------------------------------------------
// Places
// ---------------------------------------------------------------------------

/// Where an installation is built and kept.
pub struct RuntimePaths {
    /// The installation.
    pub version_root: PathBuf,
    /// Its directory of libraries.
    pub libraries: PathBuf,
    /// The archive.
    pub wheel: PathBuf,
    /// Where the archive is unpacked.
    pub staging_root: PathBuf,
    /// The link to the installation in use.
    pub current: PathBuf,
}

/// The places of an installation below the root of the runtimes.
pub fn runtime_paths(runtime_root: &PathBuf) -> (paths: RuntimePaths)
    ensures
        path_parts(&paths.version_root) == path_parts(runtime_root).push(runtime_version_text()),
        path_parts(&paths.libraries) == library_directory_parts(path_parts(&paths.version_root)),
        path_parts(&paths.wheel) == path_parts(runtime_root).push(
            "onnxruntime_gpu-1.24.0.dev20251108004.whl"@,
        ),
        path_parts(&paths.staging_root) == path_parts(runtime_root).push(
            ".1.24.0.dev20251108004.extract"@,
        ),
        path_parts(&paths.current) == path_parts(runtime_root).push("current"@),
{
    proof {
        reveal_strlit("1.24.0.dev20251108004");
        reveal_strlit("onnxruntime_gpu-1.24.0.dev20251108004.whl");
        reveal_strlit(".1.24.0.dev20251108004.extract");
        reveal_strlit("current");
    }
    let version_root = join_name(runtime_root, "1.24.0.dev20251108004");
    let libraries = library_directory(&version_root);
    RuntimePaths {
        version_root,
        libraries,
        wheel: join_name(runtime_root, "onnxruntime_gpu-1.24.0.dev20251108004.whl"),
        staging_root: join_name(runtime_root, ".1.24.0.dev20251108004.extract"),
        current: join_name(runtime_root, "current"),
    }
}

// ---------------------------------------------------------------------------
// Decisions
// ---------------------------------------------------------------------------

/// A user who names a library or a directory of libraries needs no installation.
pub fn runtime_is_given(library_named: bool, directory_named: bool) -> (given: bool)
    ensures
        given == (library_named || directory_named),
{
    library_named || directory_named
}

/// An installation is complete when each needed file and both links are there.
pub fn ort_runtime_ready(files_present: &[bool], link_present: bool, major_link_present: bool) -> (ready:
    bool)
    requires
        files_present@.len() == required_library_texts().len(),
    ensures
        ready == (link_present && major_link_present && forall|i: int|
            0 <= i < files_present@.len() ==> files_present@[i]),
{
    for i in 0..files_present.len()
        invariant
            forall|j: int| 0 <= j < i ==> files_present@[j],
    {
        if !files_present[i] {
            return false;
        }
    }
    link_present && major_link_present
}

/// What is taken out of the archive: a needed file in the directory of libraries.
pub open spec fn is_wanted(path: Seq<char>, file_name: Option<Seq<char>>) -> bool {
    &&& begins_with(path, "onnxruntime/capi/"@)
    &&& file_name is Some
    &&& required_library_texts().contains(file_name->0)
}

/// Whether an entry of the archive is taken out, given its path and the name that
/// the path ends in.
pub fn is_wanted_entry(path: &str, file_name: Option<&str>) -> (yes: bool)
    ensures
        yes == is_wanted(path@, opt_str(file_name)),
{
    if !starts_with(path, "onnxruntime/capi/") {
        return false;
    }
    match file_name {
        Some(name) => {
            let names = required_libraries();
            for i in 0..names.len()
                invariant
                    begins_with(path@, "onnxruntime/capi/"@),
                    file_name == Some(name),
                    slice_texts(names@) == required_library_texts(),
                    forall|j: int| 0 <= j < i ==> slice_texts(names@)[j] != name@,
            {
                if same_text(names[i], name) {
                    assert(slice_texts(names@)[i as int] == name@);
                    return true;
                }
            }
            false
        },
        None => false,
    }
}

/// Whether the archive has to be fetched, given the size of what is there.
pub fn needs_wheel(existing_size: u64) -> (yes: bool)
    ensures
        yes == (existing_size == 0),
{
    existing_size == 0
}

/// What is said of an archive without the needed files.
pub fn incomplete_wheel(wheel: &str) -> (text: String)
    ensures
        text@ == "extracted ONNX Runtime wheel `"@ + wheel@
            + "` but required CUDA provider libraries were not found"@,
{
    concat3(
        "extracted ONNX Runtime wheel `",
        wheel,
        "` but required CUDA provider libraries were not found",
    )
}

/// What is said when the archive is there.
pub fn wheel_message() -> (text: String)
    ensures
        text@ == "ort runtime ready ["@ + runtime_version_text() + "]"@,
{
    concat3("ort runtime ready [", runtime_version(), "]")
}

/// What to do after the archive was unpacked or not.
#[derive(Debug)]
pub enum InstallStep {
    /// Put the installation in its place.
    Install,
    /// Throw the archive and what came out of it away, and fetch it again.
    Retry,
    /// Give up.
    Fail { message: String },
}

/// Unpacking the archive, which is tried twice.
#[derive(Clone, Copy, Debug)]
pub struct RuntimeInstall {
    failures: u8,
}

impl RuntimeInstall {
    pub closed spec fn failed(self) -> int {
        self.failures as int
    }

    pub fn new() -> (install: Self)
        ensures
            install.failed() == 0,
    {
        RuntimeInstall { failures: 0 }
    }

    /// Takes note of how unpacking went.
    pub fn after_unpacking(&mut self, runtime_root: &str, outcome: Result<(), String>) -> (step:
        InstallStep)
        requires
            old(self).failed() < 2,
        ensures
            match outcome {
                Ok(()) => step is Install && final(self).failed() == old(self).failed(),
                Err(reason) => {
                    &&& final(self).failed() == old(self).failed() + 1
                    &&& if old(self).failed() == 0 {
                        step is Retry
                    } else {
                        step matches InstallStep::Fail { message } && message@
                            == "failed to prepare ONNX Runtime CUDA runtime in `"@ + runtime_root@
                            + "`: "@ + reason@
                    }
                },
            },
    {
        match outcome {
            Ok(()) => InstallStep::Install,
            Err(reason) => {
                self.failures = self.failures + 1;
                if self.failures == 1 {
                    InstallStep::Retry
                } else {
                    let mut message = concat3(
                        "failed to prepare ONNX Runtime CUDA runtime in `",
                        runtime_root,
                        "`: ",
                    );
                    message.append(reason.as_str());
                    InstallStep::Fail { message }
                }
            },
        }
    }
}

/// The library and its two providers are taken out of the directory of libraries
/// in the archive, and nothing else is.
pub proof fn law_the_libraries_are_taken_out(path: Seq<char>, file_name: Option<Seq<char>>)
    ensures
        is_wanted(path, file_name) <==> begins_with(path, "onnxruntime/capi/"@) && (file_name
            == Some("libonnxruntime.so.1.24.0"@) || file_name == Some(
            "libonnxruntime_providers_shared.so"@,
        ) || file_name == Some("libonnxruntime_providers_cuda.so"@)),
{
    let names = required_library_texts();
    assert(names[0] == "libonnxruntime.so.1.24.0"@ && names[1]
        == "libonnxruntime_providers_shared.so"@ && names[2] == "libonnxruntime_providers_cuda.so"@);
}

} // verus!
