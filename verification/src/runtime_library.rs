//! Where the library that runs the models is looked for.

use std::path::PathBuf;

use vstd::prelude::*;
use vstd::seq_lib::group_to_multiset_ensures;

use crate::paths::{join_name, path_parts};

verus! {

/// A directory below the root of the runtimes, found on disk.
pub struct RuntimeDirectory {
    /// The bytes of its name.
    pub name: Vec<u8>,
    /// Its directory of libraries.
    pub path: PathBuf,
}

/// The places that a machine offers.
pub struct RuntimePlaces {
    /// A library that the user names.
    pub explicit_library: Option<PathBuf>,
    /// A directory of libraries that the user names.
    pub explicit_root: Option<PathBuf>,
    /// The directory of the running program.
    pub binary_directory: Option<PathBuf>,
    /// The root of the downloaded runtimes.
    pub runtime_root: Option<PathBuf>,
    /// What lies below that root.
    pub runtime_directories: Vec<RuntimeDirectory>,
}

/// Whether one name comes before another in the order of their bytes.
pub open spec fn name_before(a: Seq<u8>, b: Seq<u8>) -> bool
    decreases a.len(),
{
    if b.len() == 0 {
        false
    } else if a.len() == 0 {
        true
    } else if a[0] == b[0] {
        name_before(a.drop_first(), b.drop_first())
    } else {
        a[0] < b[0]
    }
}

/// The directories stand by descending names.
pub open spec fn descending(dirs: Seq<RuntimeDirectory>) -> bool {
    forall|i: int, j: int|
        0 <= i < j < dirs.len() ==> !name_before(#[trigger] dirs[i].name@, #[trigger] dirs[j].name@)
}

proof fn lemma_name_before_is_transitive(a: Seq<u8>, b: Seq<u8>, c: Seq<u8>)
    ensures
        !name_before(a, b) && !name_before(b, c) ==> !name_before(a, c),
        name_before(a, b) ==> !name_before(b, a),
    decreases a.len() + b.len() + c.len(),
{
    if a.len() > 0 && b.len() > 0 {
        if c.len() > 0 {
            lemma_name_before_is_transitive(a.drop_first(), b.drop_first(), c.drop_first());
        } else {
            lemma_name_before_is_transitive(a.drop_first(), b.drop_first(), c);
        }
    }
}

fn is_name_before(a: &[u8], b: &[u8]) -> (yes: bool)
    ensures
        yes == name_before(a@, b@),
{
    let mut i: usize = 0;
    assert(a@.skip(0) =~= a@ && b@.skip(0) =~= b@);
    while i < a.len() && i < b.len()
        invariant
            i <= a@.len(),
            i <= b@.len(),
            name_before(a@, b@) == name_before(a@.skip(i as int), b@.skip(i as int)),
        decreases a@.len() - i,
    {
        assert(a@.skip(i as int).drop_first() =~= a@.skip(i + 1));
        assert(b@.skip(i as int).drop_first() =~= b@.skip(i + 1));
        if a[i] != b[i] {
            return a[i] < b[i];
        }
        i = i + 1;
    }
    i < b.len()
}

proof fn lemma_insert_multiset<T>(s: Seq<T>, at: int, item: T)
    requires
        0 <= at <= s.len(),
    ensures
        s.insert(at, item).to_multiset() == s.to_multiset().insert(item),
{
    broadcast use group_to_multiset_ensures;

    let longer = s.insert(at, item);
    assert(longer.remove(at) =~= s);
    assert(longer[at] == item);
    assert(longer.contains(item));
    assert(s.to_multiset() == longer.to_multiset().remove(item));
    assert(longer.to_multiset() =~= longer.to_multiset().remove(item).insert(item));
}

/// The directories by descending names.
pub fn sort_runtime_directories(dirs: Vec<RuntimeDirectory>) -> (sorted: Vec<RuntimeDirectory>)
    ensures
        descending(sorted@),
        sorted@.to_multiset() == dirs@.to_multiset(),
{
    let mut rest = dirs;
    let mut sorted: Vec<RuntimeDirectory> = Vec::new();
    let ghost all = rest@.to_multiset();
    proof {
        broadcast use group_to_multiset_ensures;

        assert(sorted@.to_multiset() =~= vstd::multiset::Multiset::empty());
        assert(all =~= sorted@.to_multiset().add(rest@.to_multiset()));
    }
    while rest.len() > 0
        invariant
            descending(sorted@),
            all == sorted@.to_multiset().add(rest@.to_multiset()),
            all == dirs@.to_multiset(),
        decreases rest@.len(),
    {
        let ghost before = rest@;
        let ghost placed = sorted@;
        match rest.pop() {
            Some(next) => {
                let mut at: usize = 0;
                while at < sorted.len() && !is_name_before(
                    sorted[at].name.as_slice(),
                    next.name.as_slice(),
                )
                    invariant
                        at <= sorted@.len(),
                        sorted@ == placed,
                        forall|i: int|
                            0 <= i < at ==> !name_before(#[trigger] placed[i].name@, next.name@),
                    ensures
                        at <= sorted@.len(),
                        sorted@ == placed,
                        forall|i: int|
                            0 <= i < at ==> !name_before(#[trigger] placed[i].name@, next.name@),
                        at < sorted@.len() ==> name_before(placed[at as int].name@, next.name@),
                    decreases sorted@.len() - at,
                {
                    at = at + 1;
                }
                sorted.insert(at, next);
                proof {
                    broadcast use group_to_multiset_ensures;

                    lemma_insert_multiset(placed, at as int, next);
                    assert(before =~= rest@.push(next));
                    assert(all =~= sorted@.to_multiset().add(rest@.to_multiset()));
                    let now = sorted@;
                    assert forall|i: int, j: int| 0 <= i < j < now.len() implies !name_before(
                        #[trigger] now[i].name@,
                        #[trigger] now[j].name@,
                    ) by {
                        if i < at && j > at {
                            assert(now[i] == placed[i] && now[j] == placed[j - 1]);
                        } else if i < at && j < at {
                            assert(now[i] == placed[i] && now[j] == placed[j]);
                        } else if i < at {
                            assert(now[i] == placed[i] && now[j] == next);
                        } else if i > at {
                            assert(now[i] == placed[i - 1] && now[j] == placed[j - 1]);
                        } else {
                            assert(now[i] == next && now[j] == placed[j - 1]);
                            lemma_name_before_is_transitive(
                                placed[at as int].name@,
                                next.name@,
                                placed[j - 1].name@,
                            );
                            lemma_name_before_is_transitive(
                                next.name@,
                                placed[at as int].name@,
                                placed[j - 1].name@,
                            );
                            if j - 1 > at {
                                assert(!name_before(
                                    placed[at as int].name@,
                                    placed[j - 1].name@,
                                ));
                            }
                        }
                    }
                }
            },
            None => {},
        }
    }
    proof {
        broadcast use group_to_multiset_ensures;

        assert(rest@ =~= Seq::empty());
        assert(rest@.to_multiset() =~= vstd::multiset::Multiset::empty());
        assert(sorted@.to_multiset() =~= all);
    }
    sorted
}

/// The names that the library goes by, the first choice first.
pub open spec fn library_names() -> Seq<Seq<char>> {
    seq![
        "libonnxruntime.so"@,
        "libonnxruntime.so.1"@,
        "libonnxruntime.so.1.24.0"@,
        "libonnxruntime.so.1.25.0"@,
    ]
}

/// The library under each of its names in a directory.
pub open spec fn libraries_in(dir: Seq<Seq<char>>) -> Seq<Seq<Seq<char>>> {
    Seq::new(4, |i: int| dir.push(library_names()[i]))
}

/// Where a runtime keeps its libraries.
pub open spec fn library_directory_parts(runtime: Seq<Seq<char>>) -> Seq<Seq<char>> {
    runtime.push("onnxruntime"@).push("capi"@)
}

/// Where a runtime keeps its libraries.
pub fn library_directory(runtime: &PathBuf) -> (dir: PathBuf)
    ensures
        path_parts(&dir) == library_directory_parts(path_parts(runtime)),
{
    proof {
        reveal_strlit("onnxruntime");
        reveal_strlit("capi");
    }
    let packages = join_name(runtime, "onnxruntime");
    join_name(&packages, "capi")
}

pub open spec fn all_parts(paths: Seq<PathBuf>) -> Seq<Seq<Seq<char>>> {
    Seq::new(paths.len(), |i: int| path_parts(&paths[i]))
}

fn push_libraries(candidates: &mut Vec<PathBuf>, dir: &PathBuf)
    ensures
        all_parts(final(candidates)@) == all_parts(old(candidates)@) + libraries_in(
            path_parts(dir),
        ),
{
    proof {
        reveal_strlit("libonnxruntime.so");
        reveal_strlit("libonnxruntime.so.1");
        reveal_strlit("libonnxruntime.so.1.24.0");
        reveal_strlit("libonnxruntime.so.1.25.0");
    }
    candidates.push(join_name(dir, "libonnxruntime.so"));
    candidates.push(join_name(dir, "libonnxruntime.so.1"));
    candidates.push(join_name(dir, "libonnxruntime.so.1.24.0"));
    candidates.push(join_name(dir, "libonnxruntime.so.1.25.0"));
    assert(all_parts(candidates@) =~= all_parts(old(candidates)@) + libraries_in(path_parts(dir)));
}

/// The libraries of several directories, directory by directory.
pub open spec fn libraries_of(dirs: Seq<RuntimeDirectory>) -> Seq<Seq<Seq<char>>>
    decreases dirs.len(),
{
    if dirs.len() == 0 {
        seq![]
    } else {
        libraries_of(dirs.drop_last()) + libraries_in(path_parts(&dirs.last().path))
    }
}

/// The libraries to look for, in order: the one that the user names, those in the
/// directory that the user names, those beside the program, those of the current
/// runtime and those of the other runtimes, given by descending names.
pub open spec fn candidate_parts(
    places: RuntimePlaces,
    sorted: Seq<RuntimeDirectory>,
) -> Seq<Seq<Seq<char>>> {
    let named = match places.explicit_library {
        Some(path) => seq![path_parts(&path)],
        None => seq![],
    };
    let rooted = match places.explicit_root {
        Some(root) => libraries_in(path_parts(&root)),
        None => seq![],
    };
    let beside = match places.binary_directory {
        Some(dir) => libraries_in(path_parts(&dir)),
        None => seq![],
    };
    let downloaded = match places.runtime_root {
        Some(root) => libraries_in(library_directory_parts(path_parts(&root).push("current"@)))
            + libraries_of(sorted),
        None => seq![],
    };
    named + rooted + beside + downloaded
}

pub open spec fn is_sorting_of(sorted: Seq<RuntimeDirectory>, dirs: Seq<RuntimeDirectory>) -> bool {
    descending(sorted) && sorted.to_multiset() == dirs.to_multiset()
}

/// A library that the user names is the first to be looked for, and without any
/// place there is none.
pub proof fn law_a_named_library_comes_first(places: RuntimePlaces, sorted: Seq<RuntimeDirectory>)
    ensures
        places.explicit_library is Some ==> candidate_parts(places, sorted).len() > 0
            && candidate_parts(places, sorted)[0] == path_parts(&places.explicit_library->0),
        places.explicit_library is None && places.explicit_root is None
            && places.binary_directory is None && places.runtime_root is None ==> candidate_parts(
            places,
            sorted,
        ).len() == 0,
{
}

/// The libraries to look for, in order.
pub fn runtime_library_candidates(places: RuntimePlaces) -> (candidates: Vec<PathBuf>)
    ensures
        exists|sorted: Seq<RuntimeDirectory>|
            #![trigger candidate_parts(places, sorted)]
            is_sorting_of(sorted, places.runtime_directories@) && all_parts(candidates@)
                == candidate_parts(places, sorted),
{
    let sorted = sort_runtime_directories(places.runtime_directories);
    let mut candidates: Vec<PathBuf> = Vec::new();
    assert(all_parts(candidates@) =~= seq![]);
    match places.explicit_library {
        Some(path) => {
            candidates.push(path);
            assert(all_parts(candidates@) =~= seq![path_parts(&path)]);
        },
        None => {},
    }
    match &places.explicit_root {
        Some(root) => {
            push_libraries(&mut candidates, root);
        },
        None => {},
    }
    match &places.binary_directory {
        Some(dir) => {
            push_libraries(&mut candidates, dir);
        },
        None => {},
    }
    let ghost early = all_parts(candidates@);
    match &places.runtime_root {
        Some(root) => {
            proof {
                reveal_strlit("current");
            }
            let current = join_name(root, "current");
            let dir = library_directory(&current);
            push_libraries(&mut candidates, &dir);
            let ghost base = all_parts(candidates@);
            assert(base + libraries_of(sorted@.take(0)) =~= base);
            for i in 0..sorted.len()
                invariant
                    all_parts(candidates@) == base + libraries_of(sorted@.take(i as int)),
            {
                assert(sorted@.take(i + 1).drop_last() =~= sorted@.take(i as int));
                push_libraries(&mut candidates, &sorted[i].path);
                assert(all_parts(candidates@) =~= base + libraries_of(sorted@.take(i + 1)));
            }
            assert(sorted@.take(sorted@.len() as int) =~= sorted@);
        },
        None => {},
    }
    assert(all_parts(candidates@) =~= candidate_parts(places, sorted@));
    assert(is_sorting_of(sorted@, places.runtime_directories@));
    candidates
}

/// What is said where no library is found.
pub open spec fn missing_library_text() -> Seq<char> {
    "failed to locate a dynamic ONNX Runtime library (`libonnxruntime.so*`); use `--gpu` once so transcribe-cli can populate `<binary_dir>/transcribe_sandbox/ort-cuda13-nightly`, or set ORT_DYLIB_PATH"@
}

/// The first candidate that is there, given which ones are; else what to say.
pub fn choose_library(present: &[bool]) -> (choice: Result<usize, &'static str>)
    ensures
        match choice {
            Ok(at) => at < present@.len() && present@[at as int] && forall|i: int|
                0 <= i < at ==> !present@[i],
            Err(text) => text@ == missing_library_text() && forall|i: int|
                0 <= i < present@.len() ==> !present@[i],
        },
{
    for i in 0..present.len()
        invariant
            forall|j: int| 0 <= j < i ==> !present@[j],
    {
        if present[i] {
            return Ok(i);
        }
    }
    Err(
        "failed to locate a dynamic ONNX Runtime library (`libonnxruntime.so*`); use `--gpu` once so transcribe-cli can populate `<binary_dir>/transcribe_sandbox/ort-cuda13-nightly`, or set ORT_DYLIB_PATH",
    )
}

/// The first byte in which two names differ decides which comes first; a name comes
/// before every longer one that begins with it.
pub proof fn law_the_first_byte_decides(
    start: Seq<u8>,
    x: u8,
    a: Seq<u8>,
    y: u8,
    b: Seq<u8>,
)
    ensures
        x != y ==> name_before(start.push(x) + a, start.push(y) + b) == (x < y),
        name_before(start, start.push(y) + b),
        !name_before(start + a, start),
    decreases start.len(),
{
    if start.len() == 0 {
        assert((start.push(x) + a)[0] == x && (start.push(y) + b)[0] == y);
    } else {
        let rest = start.drop_first();
        law_the_first_byte_decides(rest, x, a, y, b);
        assert((start.push(x) + a).drop_first() =~= rest.push(x) + a);
        assert((start.push(y) + b).drop_first() =~= rest.push(y) + b);
        assert((start + a).drop_first() =~= rest + a);
    }
}

proof fn lemma_libraries_of(dirs: Seq<RuntimeDirectory>, i: int, k: int)
    requires
        0 <= k < 4,
    ensures
        libraries_of(dirs).len() == 4 * dirs.len(),
        0 <= i < dirs.len() ==> at_place(
            libraries_of(dirs),
            4 * i + k,
            path_parts(&dirs[i].path),
            k,
        ),
    decreases dirs.len(),
{
    if dirs.len() > 0 {
        let before = dirs.drop_last();
        lemma_libraries_of(before, i, k);
        let all = libraries_of(dirs);
        if 0 <= i < before.len() {
            assert(all[4 * i + k] == libraries_of(before)[4 * i + k]);
            assert(before[i] == dirs[i]);
        } else if i == before.len() {
            let dir = path_parts(&dirs[i].path);
            assert(all[4 * i + k] == libraries_in(dir)[k]);
            assert(all[4 * i + k].drop_last() =~= dir);
        }
    }
}

/// A library in a directory, under the name of that number, stands at a place of
/// the list.
pub open spec fn at_place(
    list: Seq<Seq<Seq<char>>>,
    at: int,
    dir: Seq<Seq<char>>,
    number: int,
) -> bool {
    &&& 0 <= at < list.len()
    &&& list[at].len() == dir.len() + 1
    &&& list[at].drop_last() == dir
    &&& list[at].last() == (if number == 0 {
        "libonnxruntime.so"@
    } else if number == 1 {
        "libonnxruntime.so.1"@
    } else if number == 2 {
        "libonnxruntime.so.1.24.0"@
    } else {
        "libonnxruntime.so.1.25.0"@
    })
}

/// Libraries are looked for in order: the one that is named, then, under each of
/// four names, in the directory that is named, beside the program, in the runtime
/// in use and in the other runtimes one after the other, and nowhere else.
pub proof fn law_places_are_searched_in_order(
    places: RuntimePlaces,
    sorted: Seq<RuntimeDirectory>,
    i: int,
    k: int,
)
    requires
        0 <= k < 4,
    ensures
        ({
            let list = candidate_parts(places, sorted);
            let named: int = if places.explicit_library is Some {
                1
            } else {
                0
            };
            let rooted: int = named + if places.explicit_root is Some {
                4int
            } else {
                0
            };
            let beside: int = rooted + if places.binary_directory is Some {
                4int
            } else {
                0
            };
            &&& places.explicit_library matches Some(path) ==> list[0] == path_parts(&path)
            &&& places.explicit_root matches Some(root) ==> at_place(
                list,
                named + k,
                path_parts(&root),
                k,
            )
            &&& places.binary_directory matches Some(dir) ==> at_place(
                list,
                rooted + k,
                path_parts(&dir),
                k,
            )
            &&& places.runtime_root matches Some(root) ==> {
                &&& list.len() == beside + 4 + 4 * sorted.len()
                &&& at_place(
                    list,
                    beside + k,
                    path_parts(&root) + seq!["current"@, "onnxruntime"@, "capi"@],
                    k,
                )
                &&& 0 <= i < sorted.len() ==> at_place(
                    list,
                    beside + 4 + 4 * i + k,
                    path_parts(&sorted[i].path),
                    k,
                )
            }
            &&& places.runtime_root is None ==> list.len() == beside
        }),
{
    let list = candidate_parts(places, sorted);
    let named: int = if places.explicit_library is Some {
        1
    } else {
        0
    };
    let rooted: int = named + if places.explicit_root is Some {
        4int
    } else {
        0
    };
    let beside: int = rooted + if places.binary_directory is Some {
        4int
    } else {
        0
    };
    lemma_libraries_of(sorted, i, k);
    match places.explicit_root {
        Some(root) => {
            assert(list[named + k] =~= path_parts(&root).push(library_names()[k]));
            assert(list[named + k].drop_last() =~= path_parts(&root));
        },
        None => {},
    }
    match places.binary_directory {
        Some(dir) => {
            assert(list[rooted + k] =~= path_parts(&dir).push(library_names()[k]));
            assert(list[rooted + k].drop_last() =~= path_parts(&dir));
        },
        None => {},
    }
    match places.runtime_root {
        Some(root) => {
            let dir = path_parts(&root) + seq!["current"@, "onnxruntime"@, "capi"@];
            assert(library_directory_parts(path_parts(&root).push("current"@)) =~= dir);
            assert(list[beside + k] =~= dir.push(library_names()[k]));
            assert(list[beside + k].drop_last() =~= dir);
            if 0 <= i < sorted.len() {
                assert(list[beside + 4 + 4 * i + k] == libraries_of(sorted)[4 * i + k]);
            }
        },
        None => {},
    }
}

/// Runtimes are looked at by descending names, all of them and each once.
pub proof fn law_runtimes_stand_by_descending_names(
    sorted: Seq<RuntimeDirectory>,
    dirs: Seq<RuntimeDirectory>,
    i: int,
    j: int,
)
    requires
        is_sorting_of(sorted, dirs),
        0 <= i < j < sorted.len(),
    ensures
        !name_before(sorted[i].name@, sorted[j].name@),
        sorted.to_multiset() == dirs.to_multiset(),
        sorted.len() == dirs.len(),
{
    broadcast use group_to_multiset_ensures;

    assert(sorted[i].name@ == sorted[i].name@ && sorted[j].name@ == sorted[j].name@);
    assert(sorted.len() == sorted.to_multiset().len());
    assert(dirs.len() == dirs.to_multiset().len());
}

} // verus!
