use std::path::{Path, PathBuf};

use transcribe_cli::runtime_install::{
    incomplete_wheel, is_wanted_entry, library_links, needs_wheel, ort_runtime_ready,
    required_libraries, runtime_is_given, runtime_paths, runtime_version, runtime_wheel_url,
    wheel_message, InstallStep, RuntimeInstall,
};
use transcribe_cli::runtime_library::{
    choose_library, library_directory, runtime_library_candidates, sort_runtime_directories,
    RuntimeDirectory, RuntimePlaces,
};

fn directory(name: &str) -> RuntimeDirectory {
    RuntimeDirectory {
        name: name.as_bytes().to_vec(),
        path: library_directory(&PathBuf::from(format!("/r/{name}"))),
    }
}

#[test]
fn directories_stand_by_descending_names() {
    let sorted = sort_runtime_directories(vec![
        directory("1.2"),
        directory("1.24.0"),
        directory("current"),
        directory("1.3"),
    ]);
    let found: Vec<PathBuf> = sorted.into_iter().map(|dir| dir.path).collect();
    let mut expected = found.clone();
    expected.sort_by(|left, right| right.cmp(left));
    assert_eq!(found, expected);
    assert_eq!(found[0], Path::new("/r/current/onnxruntime/capi"));
}

#[test]
fn libraries_are_looked_for_in_order() {
    let candidates = runtime_library_candidates(RuntimePlaces {
        explicit_library: Some(PathBuf::from("/x/lib.so")),
        explicit_root: Some(PathBuf::from("/root")),
        binary_directory: Some(PathBuf::from("/bin")),
        runtime_root: Some(PathBuf::from("/r")),
        runtime_directories: vec![directory("a"), directory("b")],
    });
    assert_eq!(candidates.len(), 21);
    assert_eq!(candidates[0], Path::new("/x/lib.so"));
    assert_eq!(candidates[1], Path::new("/root/libonnxruntime.so"));
    assert_eq!(candidates[2], Path::new("/root/libonnxruntime.so.1"));
    assert_eq!(candidates[3], Path::new("/root/libonnxruntime.so.1.24.0"));
    assert_eq!(candidates[4], Path::new("/root/libonnxruntime.so.1.25.0"));
    assert_eq!(candidates[5], Path::new("/bin/libonnxruntime.so"));
    assert_eq!(candidates[9], Path::new("/r/current/onnxruntime/capi/libonnxruntime.so"));
    assert_eq!(candidates[13], Path::new("/r/b/onnxruntime/capi/libonnxruntime.so"));
    assert_eq!(candidates[17], Path::new("/r/a/onnxruntime/capi/libonnxruntime.so"));

    let none = runtime_library_candidates(RuntimePlaces {
        explicit_library: None,
        explicit_root: None,
        binary_directory: None,
        runtime_root: None,
        runtime_directories: vec![directory("a")],
    });
    assert!(none.is_empty());
}

#[test]
fn the_first_library_that_is_there_is_taken() {
    assert_eq!(choose_library(&[false, true, true]), Ok(1));
    assert_eq!(
        choose_library(&[false]),
        Err("failed to locate a dynamic ONNX Runtime library (`libonnxruntime.so*`); use `--gpu` once so transcribe-cli can populate `<binary_dir>/transcribe_sandbox/ort-cuda13-nightly`, or set ORT_DYLIB_PATH")
    );
}

#[test]
fn an_installation_has_its_places() {
    let paths = runtime_paths(&PathBuf::from("/r"));
    assert_eq!(paths.version_root, Path::new("/r/1.24.0.dev20251108004"));
    assert_eq!(paths.libraries, Path::new("/r/1.24.0.dev20251108004/onnxruntime/capi"));
    assert_eq!(paths.wheel, Path::new("/r/onnxruntime_gpu-1.24.0.dev20251108004.whl"));
    assert_eq!(paths.staging_root, Path::new("/r/.1.24.0.dev20251108004.extract"));
    assert_eq!(paths.current, Path::new("/r/current"));
    assert_eq!(runtime_version(), "1.24.0.dev20251108004");
    assert!(runtime_wheel_url().ends_with("x86_64.whl"));
    let links = library_links();
    assert_eq!((links.0.name, links.0.target), ("libonnxruntime.so.1", "libonnxruntime.so.1.24.0"));
    assert_eq!((links.1.name, links.1.target), ("libonnxruntime.so", "libonnxruntime.so.1"));
}

#[test]
fn an_installation_needs_all_files_and_links() {
    assert_eq!(required_libraries().len(), 3);
    assert!(ort_runtime_ready(&[true, true, true], true, true));
    assert!(!ort_runtime_ready(&[true, false, true], true, true));
    assert!(!ort_runtime_ready(&[true, true, true], false, true));
    assert!(!ort_runtime_ready(&[true, true, true], true, false));
    assert!(runtime_is_given(true, false));
    assert!(runtime_is_given(false, true));
    assert!(!runtime_is_given(false, false));
    assert!(needs_wheel(0));
    assert!(!needs_wheel(1));
    assert_eq!(wheel_message(), "ort runtime ready [1.24.0.dev20251108004]");
    assert_eq!(
        incomplete_wheel("/w"),
        "extracted ONNX Runtime wheel `/w` but required CUDA provider libraries were not found"
    );
}

#[test]
fn only_needed_libraries_are_unpacked() {
    let wanted = "libonnxruntime_providers_cuda.so";
    assert!(is_wanted_entry("onnxruntime/capi/libonnxruntime_providers_cuda.so", Some(wanted)));
    assert!(!is_wanted_entry("onnxruntime/libonnxruntime_providers_cuda.so", Some(wanted)));
    assert!(!is_wanted_entry("onnxruntime/capi/other.so", Some("other.so")));
    assert!(!is_wanted_entry("onnxruntime/capi/", None));
}

#[test]
fn unpacking_is_tried_twice() {
    let mut install = RuntimeInstall::new();
    assert!(matches!(install.after_unpacking("/r", Err("bad".to_string())), InstallStep::Retry));
    assert!(matches!(install.after_unpacking("/r", Ok(())), InstallStep::Install));
    match install.after_unpacking("/r", Err("worse".to_string())) {
        InstallStep::Fail { message } => assert_eq!(
            message,
            "failed to prepare ONNX Runtime CUDA runtime in `/r`: worse"
        ),
        other => panic!("unexpected {other:?}"),
    }
}
