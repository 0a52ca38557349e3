//! Which files of a model are fetched, and how.

use indicatif::HumanBytes;

use vstd::prelude::*;
use vstd::string::StringExecFns;

use crate::model::{slice_texts, HfSibling, ModelChoice, ModelComputeType};
use crate::text::{
    chars_of, comes_before, concat2, concat3, decimal, decimal_text, is_before, join_range, joined,
    same_text, texts, trimmed,
};

verus! {

// ---------------------------------------------------------------------------
// Sorted names
// ---------------------------------------------------------------------------

/// The names stand in ascending order, each once.
pub open spec fn ascending(names: Seq<Seq<char>>) -> bool {
    forall|i: int, j: int|
        0 <= i < j < names.len() ==> comes_before(#[trigger] names[i], #[trigger] names[j])
}

/// The same names in ascending order, each once.
pub open spec fn is_sorted_set_of(list: Seq<Seq<char>>, names: Seq<Seq<char>>) -> bool {
    &&& ascending(list)
    &&& forall|name: Seq<char>| #[trigger] list.contains(name) <==> names.contains(name)
}

proof fn lemma_order(a: Seq<char>, b: Seq<char>, c: Seq<char>)
    ensures
        comes_before(a, b) && comes_before(b, c) ==> comes_before(a, c),
        !comes_before(a, b) && !comes_before(b, a) ==> a == b,
        !comes_before(a, a),
    decreases a.len() + b.len() + c.len(),
{
    if a.len() > 0 && b.len() > 0 {
        let rest = if c.len() > 0 {
            c.drop_first()
        } else {
            c
        };
        lemma_order(a.drop_first(), b.drop_first(), rest);
        if a[0] == b[0] && !comes_before(a, b) && !comes_before(b, a) {
            assert(a =~= seq![a[0]] + a.drop_first());
            assert(b =~= seq![b[0]] + b.drop_first());
        }
    } else if a.len() > 0 {
        lemma_order(a.drop_first(), b, c);
    } else {
        if b.len() == 0 {
            assert(a =~= b);
        }
    }
}

/// Adds a name to a sorted list, unless it is there.
fn insert_name(list: &mut Vec<String>, name: &str)
    requires
        ascending(texts(old(list)@)),
    ensures
        ascending(texts(final(list)@)),
        forall|other: Seq<char>| #[trigger]
            texts(final(list)@).contains(other) <==> texts(old(list)@).contains(other) || other
                == name@,
{
    let ghost before = texts(list@);
    let mut at: usize = 0;
    while at < list.len() && is_before(list[at].as_str(), name)
        invariant
            *list == *old(list),
            before == texts(list@),
            at <= list@.len(),
            forall|i: int| 0 <= i < at ==> comes_before(#[trigger] before[i], name@),
        ensures
            *list == *old(list),
            at <= list@.len(),
            forall|i: int| 0 <= i < at ==> comes_before(#[trigger] before[i], name@),
            at < list@.len() ==> !comes_before(before[at as int], name@),
        decreases list@.len() - at,
    {
        at = at + 1;
    }
    if at < list.len() && same_text(list[at].as_str(), name) {
        assert(before[at as int] == name@);
        assert(before.contains(name@));
        return ;
    }
    list.insert(at, name.to_string());
    let ghost now = texts(list@);
    proof {
        assert(now =~= before.insert(at as int, name@));
        assert forall|i: int, j: int| 0 <= i < j < now.len() implies comes_before(
            #[trigger] now[i],
            #[trigger] now[j],
        ) by {
            if j < at {
                assert(now[i] == before[i] && now[j] == before[j]);
            } else if j == at {
                assert(now[i] == before[i] && now[j] == name@);
            } else {
                assert(now[j] == before[j - 1]);
                lemma_order(before[at as int], name@, name@);
                lemma_order(name@, before[at as int], before[j - 1]);
                if i < at {
                    assert(now[i] == before[i]);
                } else if i > at {
                    assert(now[i] == before[i - 1]);
                } else {
                    assert(now[i] == name@);
                }
            }
        }
        assert forall|other: Seq<char>| #[trigger] now.contains(other) <==> before.contains(other)
            || other == name@ by {
            if now.contains(other) {
                let k = choose|k: int| 0 <= k < now.len() && now[k] == other;
                if k < at {
                    assert(before[k] == other);
                } else if k > at {
                    assert(before[k - 1] == other);
                }
            }
            if before.contains(other) {
                let k = choose|k: int| 0 <= k < before.len() && before[k] == other;
                if k < at {
                    assert(now[k] == other);
                } else {
                    assert(now[k + 1] == other);
                }
            }
            if other == name@ {
                assert(now[at as int] == other);
            }
        }
    }
}

fn has_name(list: &[String], name: &str) -> (yes: bool)
    ensures
        yes == texts(list@).contains(name@),
{
    for i in 0..list.len()
        invariant
            forall|j: int| 0 <= j < i ==> texts(list@)[j] != name@,
    {
        if same_text(list[i].as_str(), name) {
            assert(texts(list@)[i as int] == name@);
            return true;
        }
    }
    false
}

// ---------------------------------------------------------------------------
// Files of a model
// ---------------------------------------------------------------------------

/// A file to fetch.
#[derive(Debug)]
pub struct ResolvedModelFile {
    pub relative_path: String,
    pub download_url: String,
    pub expected_size: Option<u64>,
}

#[verifier::ext_equal]
pub struct FileView {
    pub path: Seq<char>,
    pub url: Seq<char>,
    pub size: Option<u64>,
}

impl View for ResolvedModelFile {
    type V = FileView;

    open spec fn view(&self) -> FileView {
        FileView {
            path: self.relative_path@,
            url: self.download_url@,
            size: self.expected_size,
        }
    }
}

pub open spec fn file_views(files: Seq<ResolvedModelFile>) -> Seq<FileView> {
    Seq::new(files.len(), |i: int| files[i]@)
}

/// The names of the files that a model needs: eight bits of precision where none
/// is asked for.
pub open spec fn required_names(
    choice: ModelChoice,
    compute_type: Option<ModelComputeType>,
) -> Seq<Seq<char>> {
    let compute_type = match compute_type {
        Some(compute_type) => compute_type,
        None => ModelComputeType::Int8,
    };
    seq![
        choice.config_file_text(),
        choice.vocab_file_text(),
        choice.onnx_file_text(compute_type),
    ] + choice.extra_file_texts(compute_type)
}

/// The names of the files that a model needs, in ascending order.
pub fn required_files(choice: ModelChoice, compute_type: Option<ModelComputeType>) -> (names: Vec<
    String,
>)
    ensures
        is_sorted_set_of(texts(names@), required_names(choice, compute_type)),
{
    let ghost wanted = required_names(choice, compute_type);
    let compute_type = match compute_type {
        Some(compute_type) => compute_type,
        None => ModelComputeType::Int8,
    };
    let mut names: Vec<String> = Vec::new();
    insert_name(&mut names, choice.config_file());
    insert_name(&mut names, choice.vocab_file());
    insert_name(&mut names, choice.onnx_file(compute_type));
    let ghost first = texts(names@);
    let extra = choice.extra_required_files(compute_type);
    let ghost extras = slice_texts(extra@);
    for i in 0..extra.len()
        invariant
            extras == slice_texts(extra@),
            ascending(texts(names@)),
            forall|name: Seq<char>| #[trigger]
                texts(names@).contains(name) <==> first.contains(name) || extras.take(
                    i as int,
                ).contains(name),
    {
        let ghost before = texts(names@);
        insert_name(&mut names, extra[i]);
        proof {
            let now = extras.take(i + 1);
            assert(now =~= extras.take(i as int).push(extras[i as int]));
            assert forall|name: Seq<char>| #[trigger] texts(names@).contains(name)
                <==> first.contains(name) || now.contains(name) by {
                if extras.take(i as int).contains(name) {
                    let k = choose|k: int| 0 <= k < i && extras.take(i as int)[k] == name;
                    assert(now[k] == name);
                }
                if name == extra@[i as int]@ {
                    assert(now[i as int] == name);
                }
                if now.contains(name) {
                    let k = choose|k: int| 0 <= k < now.len() && now[k] == name;
                    if k < i {
                        assert(extras.take(i as int)[k] == name);
                    }
                }
            }
        }
    }
    proof {
        assert(extras.take(extras.len() as int) =~= extras);
        assert forall|name: Seq<char>| #[trigger] texts(names@).contains(name)
            <==> wanted.contains(name) by {
            let three = seq![
                choice.config_file_text(),
                choice.vocab_file_text(),
                choice.onnx_file_text(compute_type),
            ];
            assert(wanted == three + extras);
            assert(three[0] == wanted[0] && three[1] == wanted[1] && three[2] == wanted[2]);
            if extras.contains(name) {
                let k = choose|k: int| 0 <= k < extras.len() && extras[k] == name;
                assert(wanted[k + 3] == name);
            }
            if wanted.contains(name) {
                let k = choose|k: int| 0 <= k < wanted.len() && wanted[k] == name;
                if k >= 3 {
                    assert(extras[k - 3] == name);
                }
            }
        }
    }
    names
}

pub open spec fn download_url_text(choice: ModelChoice, relative_path: Seq<char>) -> Seq<char> {
    "https://huggingface.co/"@ + choice.repo_id_text() + "/resolve/main/"@ + relative_path
        + "?download=true"@
}

pub fn file_download_url(choice: ModelChoice, relative_path: &str) -> (url: String)
    ensures
        url@ == download_url_text(choice, relative_path@),
{
    let mut url = concat3("https://huggingface.co/", choice.repo_id(), "/resolve/main/");
    url.append(relative_path);
    url.append("?download=true");
    url
}

/// Where the list of a model's files is found.
pub fn manifest_url(choice: ModelChoice) -> (url: String)
    ensures
        url@ == "https://huggingface.co/api/models/"@ + choice.repo_id_text(),
{
    concat2("https://huggingface.co/api/models/", choice.repo_id())
}

pub open spec fn is_listed(name: Seq<char>) -> bool {
    name.len() == 0 || name.last() != '/'
}

/// The entries of a list that are files: directories end in a slash.
pub open spec fn listed(siblings: Seq<HfSibling>) -> Seq<HfSibling>
    decreases siblings.len(),
{
    if siblings.len() == 0 {
        seq![]
    } else if is_listed(siblings.last().rfilename@) {
        listed(siblings.drop_last()).push(siblings.last())
    } else {
        listed(siblings.drop_last())
    }
}

pub fn listed_files(siblings: &[HfSibling]) -> (files: Vec<HfSibling>)
    ensures
        files@ == listed(siblings@),
{
    let mut files: Vec<HfSibling> = Vec::new();
    assert(listed(siblings@.take(0)) =~= seq![]);
    for i in 0..siblings.len()
        invariant
            files@ == listed(siblings@.take(i as int)),
    {
        assert(siblings@.take(i + 1).drop_last() =~= siblings@.take(i as int));
        let sibling = &siblings[i];
        let chars = chars_of(sibling.rfilename.as_str());
        if chars.len() == 0 || chars[chars.len() - 1] != '/' {
            files.push(
                HfSibling {
                    rfilename: sibling.rfilename.clone(),
                    size: sibling.size,
                    lfs: sibling.lfs,
                },
            );
        }
    }
    assert(siblings@.take(siblings@.len() as int) =~= siblings@);
    files
}

/// The listed files that are needed, in the order of the list.
pub open spec fn needed_files(
    choice: ModelChoice,
    manifest: Seq<HfSibling>,
    required: Seq<Seq<char>>,
) -> Seq<FileView>
    decreases manifest.len(),
{
    if manifest.len() == 0 {
        seq![]
    } else {
        let before = needed_files(choice, manifest.drop_last(), required);
        let file = manifest.last();
        if required.contains(file.rfilename@) {
            before.push(
                FileView {
                    path: file.rfilename@,
                    url: download_url_text(choice, file.rfilename@),
                    size: file.known_size(),
                },
            )
        } else {
            before
        }
    }
}

pub open spec fn lists(manifest: Seq<HfSibling>, name: Seq<char>) -> bool {
    exists|i: int| 0 <= i < manifest.len() && (#[trigger] manifest[i]).rfilename@ == name
}

/// The names that the list lacks, in order.
pub open spec fn missing_names(required: Seq<Seq<char>>, manifest: Seq<HfSibling>) -> Seq<
    Seq<char>,
>
    decreases required.len(),
{
    if required.len() == 0 {
        seq![]
    } else {
        let before = missing_names(required.drop_last(), manifest);
        if lists(manifest, required.last()) {
            before
        } else {
            before.push(required.last())
        }
    }
}

/// A repository does not have all that a model needs.
#[derive(Debug)]
pub struct MissingFiles {
    pub choice: ModelChoice,
    pub names: Vec<String>,
}

impl MissingFiles {
    pub open spec fn text(self) -> Seq<char> {
        "model repository `"@ + self.choice.repo_id_text() + "` is missing required file(s): "@
            + joined(texts(self.names@), ", "@)
    }

    pub fn message(&self) -> (text: String)
        ensures
            text@ == self.text(),
    {
        let mut text = concat3(
            "model repository `",
            self.choice.repo_id(),
            "` is missing required file(s): ",
        );
        let names = join_range(self.names.as_slice(), 0, self.names.len(), ", ");
        assert(texts(self.names@).subrange(0, self.names@.len() as int) =~= texts(self.names@));
        text.append(names.as_str());
        text
    }
}

/// The files to fetch, or the names that the list lacks.
pub fn resolve_manifest_sizes(
    choice: ModelChoice,
    manifest: &[HfSibling],
    required: &[String],
) -> (files: Result<Vec<ResolvedModelFile>, MissingFiles>)
    ensures
        ({
            let missing = missing_names(texts(required@), manifest@);
            match files {
                Ok(files) => missing.len() == 0 && file_views(files@) == needed_files(
                    choice,
                    manifest@,
                    texts(required@),
                ),
                Err(error) => missing.len() > 0 && error.choice == choice && texts(error.names@)
                    == missing,
            }
        }),
{
    let ghost wanted = texts(required@);
    let mut files: Vec<ResolvedModelFile> = Vec::new();
    assert(file_views(files@) =~= needed_files(choice, manifest@.take(0), wanted));
    for i in 0..manifest.len()
        invariant
            wanted == texts(required@),
            file_views(files@) == needed_files(choice, manifest@.take(i as int), wanted),
    {
        assert(manifest@.take(i + 1).drop_last() =~= manifest@.take(i as int));
        let file = &manifest[i];
        if has_name(required, file.rfilename.as_str()) {
            let ghost before = files@;
            let resolved = ResolvedModelFile {
                relative_path: file.rfilename.as_str().to_string(),
                download_url: file_download_url(choice, file.rfilename.as_str()),
                expected_size: file.expected_size(),
            };
            files.push(resolved);
            assert(file_views(files@) =~= file_views(before).push(resolved@));
        }
    }
    assert(manifest@.take(manifest@.len() as int) =~= manifest@);
    let mut missing: Vec<String> = Vec::new();
    assert(texts(missing@) =~= missing_names(wanted.take(0), manifest@));
    for i in 0..required.len()
        invariant
            wanted == texts(required@),
            texts(missing@) == missing_names(wanted.take(i as int), manifest@),
    {
        assert(wanted.take(i + 1).drop_last() =~= wanted.take(i as int));
        assert(wanted.take(i + 1).last() == required@[i as int]@);
        if !is_in_manifest(manifest, required[i].as_str()) {
            let ghost before = missing@;
            missing.push(required[i].as_str().to_string());
            assert(texts(missing@) =~= texts(before).push(wanted[i as int]));
        }
    }
    assert(wanted.take(wanted.len() as int) =~= wanted);
    assert(texts(missing@).len() == missing@.len());
    if missing.len() > 0 {
        return Err(MissingFiles { choice, names: missing });
    }
    Ok(files)
}

fn is_in_manifest(manifest: &[HfSibling], name: &str) -> (yes: bool)
    ensures
        yes == lists(manifest@, name@),
{
    for i in 0..manifest.len()
        invariant
            forall|j: int| 0 <= j < i ==> (#[trigger] manifest@[j]).rfilename@ != name@,
    {
        if same_text(manifest[i].rfilename.as_str(), name) {
            assert(manifest@[i as int].rfilename@ == name@);
            return true;
        }
    }
    false
}

/// The files of a model to fetch.
pub open spec fn is_resolved(
    choice: ModelChoice,
    compute_type: Option<ModelComputeType>,
    manifest: Seq<HfSibling>,
    files: Result<Vec<ResolvedModelFile>, MissingFiles>,
) -> bool {
    exists|required: Seq<Seq<char>>|
        {
            &&& #[trigger] is_sorted_set_of(required, required_names(choice, compute_type))
            &&& match files {
                Ok(files) => missing_names(required, manifest).len() == 0 && file_views(files@)
                    == needed_files(choice, manifest, required),
                Err(error) => missing_names(required, manifest).len() > 0 && error.choice == choice
                    && texts(error.names@) == missing_names(required, manifest),
            }
        }
}

pub fn resolve_model_files(
    choice: ModelChoice,
    compute_type: Option<ModelComputeType>,
    manifest: &[HfSibling],
) -> (files: Result<Vec<ResolvedModelFile>, MissingFiles>)
    ensures
        is_resolved(choice, compute_type, manifest@, files),
{
    let required = required_files(choice, compute_type);
    let files = resolve_manifest_sizes(choice, manifest, required.as_slice());
    assert(is_sorted_set_of(texts(required@), required_names(choice, compute_type)));
    files
}

proof fn lemma_needed(
    choice: ModelChoice,
    manifest: Seq<HfSibling>,
    required: Seq<Seq<char>>,
    name: Seq<char>,
)
    ensures
        (exists|i: int|
            0 <= i < needed_files(choice, manifest, required).len() && (
            #[trigger] needed_files(choice, manifest, required)[i]).path == name)
            <==> required.contains(name) && lists(manifest, name),
    decreases manifest.len(),
{
    let files = needed_files(choice, manifest, required);
    if manifest.len() > 0 {
        let shorter = manifest.drop_last();
        let before = needed_files(choice, shorter, required);
        lemma_needed(choice, shorter, required, name);
        if lists(shorter, name) {
            let i = choose|i: int|
                0 <= i < shorter.len() && (#[trigger] shorter[i]).rfilename@ == name;
            assert(manifest[i].rfilename@ == name);
        }
        if lists(manifest, name) && manifest.last().rfilename@ != name {
            let i = choose|i: int|
                0 <= i < manifest.len() && (#[trigger] manifest[i]).rfilename@ == name;
            assert(shorter[i].rfilename@ == name);
        }
        if manifest.last().rfilename@ == name {
            assert(manifest[manifest.len() - 1].rfilename@ == name);
            if required.contains(name) {
                assert(files[files.len() - 1].path == name);
            }
        }
        if exists|i: int| 0 <= i < before.len() && (#[trigger] before[i]).path == name {
            let i = choose|i: int| 0 <= i < before.len() && (#[trigger] before[i]).path == name;
            assert(files[i].path == name);
        }
        if exists|i: int| 0 <= i < files.len() && (#[trigger] files[i]).path == name {
            let i = choose|i: int| 0 <= i < files.len() && (#[trigger] files[i]).path == name;
            if i < before.len() {
                assert(before[i].path == name);
            }
        }
    }
}

proof fn lemma_missing(required: Seq<Seq<char>>, manifest: Seq<HfSibling>, name: Seq<char>)
    ensures
        missing_names(required, manifest).contains(name) <==> required.contains(name) && !lists(
            manifest,
            name,
        ),
    decreases required.len(),
{
    let missing = missing_names(required, manifest);
    if required.len() > 0 {
        let shorter = required.drop_last();
        let before = missing_names(shorter, manifest);
        lemma_missing(shorter, manifest, name);
        if shorter.contains(name) {
            let i = choose|i: int| 0 <= i < shorter.len() && shorter[i] == name;
            assert(required[i] == name);
        }
        if required.contains(name) && required.last() != name {
            let i = choose|i: int| 0 <= i < required.len() && required[i] == name;
            assert(shorter[i] == name);
        }
        if required.last() == name {
            assert(required[required.len() - 1] == name);
            if !lists(manifest, name) {
                assert(missing[missing.len() - 1] == name);
            }
        }
        if before.contains(name) {
            let i = choose|i: int| 0 <= i < before.len() && before[i] == name;
            assert(missing[i] == name);
        }
        if missing.contains(name) {
            let i = choose|i: int| 0 <= i < missing.len() && missing[i] == name;
            if i < before.len() {
                assert(before[i] == name);
            }
        }
    }
}

/// What is fetched is what the model needs: every needed file and no other, or a
/// refusal that names just those needed files which the repository lacks.
pub proof fn law_a_model_is_fetched_whole(
    choice: ModelChoice,
    compute_type: Option<ModelComputeType>,
    manifest: Seq<HfSibling>,
    files: Result<Vec<ResolvedModelFile>, MissingFiles>,
    name: Seq<char>,
)
    requires
        is_resolved(choice, compute_type, manifest, files),
    ensures
        ({
            let needed = required_names(choice, compute_type).contains(name);
            match files {
                Ok(files) => needed == exists|i: int|
                    0 <= i < file_views(files@).len() && (#[trigger] file_views(files@)[i]).path
                        == name,
                Err(error) => texts(error.names@).contains(name) == (needed && !lists(
                    manifest,
                    name,
                )),
            }
        }),
{
    let required = choose|required: Seq<Seq<char>>|
        {
            &&& #[trigger] is_sorted_set_of(required, required_names(choice, compute_type))
            &&& match files {
                Ok(files) => missing_names(required, manifest).len() == 0 && file_views(files@)
                    == needed_files(choice, manifest, required),
                Err(error) => missing_names(required, manifest).len() > 0 && error.choice == choice
                    && texts(error.names@) == missing_names(required, manifest),
            }
        };
    assert(required.contains(name) == required_names(choice, compute_type).contains(name));
    lemma_needed(choice, manifest, required, name);
    lemma_missing(required, manifest, name);
    if required.contains(name) && !lists(manifest, name) {
        assert(missing_names(required, manifest).len() > 0);
    }
}

// ---------------------------------------------------------------------------
// Progress
// ---------------------------------------------------------------------------

/// The sizes of the files, where they are known.
pub open spec fn known_total(files: Seq<FileView>) -> nat
    decreases files.len(),
{
    if files.len() == 0 {
        0
    } else {
        known_total(files.drop_last()) + match files.last().size {
            Some(size) => size as nat,
            None => 0,
        }
    }
}

proof fn lemma_total_grows(files: Seq<FileView>, k: int)
    requires
        0 <= k <= files.len(),
    ensures
        known_total(files.take(k)) <= known_total(files),
    decreases files.len(),
{
    if k == files.len() {
        assert(files.take(k) =~= files);
    } else {
        lemma_total_grows(files.drop_last(), k);
        assert(files.drop_last().take(k) =~= files.take(k));
    }
}

/// The length of the progress bar: the sizes of all files, but at least one.
pub fn progress_length(files: &[ResolvedModelFile]) -> (length: u64)
    requires
        known_total(file_views(files@)) <= u64::MAX,
    ensures
        length == (if known_total(file_views(files@)) == 0 {
            1
        } else {
            known_total(file_views(files@))
        }),
{
    let ghost all = file_views(files@);
    let mut total: u64 = 0;
    for i in 0..files.len()
        invariant
            all == file_views(files@),
            known_total(all) <= u64::MAX,
            total == known_total(all.take(i as int)),
    {
        proof {
            assert(all.take(i + 1).drop_last() =~= all.take(i as int));
            lemma_total_grows(all, i + 1);
        }
        match files[i].expected_size {
            Some(size) => {
                total = total + size;
            },
            None => {},
        }
    }
    assert(all.take(all.len() as int) =~= all);
    if total == 0 {
        1
    } else {
        total
    }
}

/// A file is complete when it has the size that is expected, or any size where
/// none is.
pub open spec fn complete(existing: u64, expected: Option<u64>) -> bool {
    match expected {
        Some(expected) => existing == expected,
        None => existing > 0,
    }
}

pub fn file_is_complete(existing_size: u64, expected_size: Option<u64>) -> (yes: bool)
    ensures
        yes == complete(existing_size, expected_size),
{
    match expected_size {
        Some(expected) => existing_size == expected,
        None => existing_size > 0,
    }
}

/// A number of bytes as people read it.
pub uninterp spec fn human_bytes_text(bytes: u64) -> Seq<char>;

/// `indicatif::HumanBytes`, displayed: a number of bytes with a binary prefix.
/// How it reads is left as a name.
#[verifier::external_body]
pub(crate) fn human_bytes(bytes: u64) -> (text: String)
    ensures
        text@ == human_bytes_text(bytes),
{
    HumanBytes(bytes).to_string()
}

/// What to do about a file, given what is there of it.
#[derive(Debug)]
pub enum FileStep {
    /// It is there; the progress bar moves on by so much.
    Keep { progress: u64 },
    /// It is fetched from where it stops, or from its start where nothing is
    /// there; the progress bar moves on by what is there and says this.
    Fetch { progress: u64, message: String },
}

pub open spec fn is_file_step(
    file: FileView,
    existing: u64,
    human: Seq<char>,
    step: FileStep,
) -> bool {
    if complete(existing, file.size) {
        step == (FileStep::Keep { progress: existing })
    } else {
        step matches FileStep::Fetch { progress, message } && progress == existing && message@ == (
        if existing > 0 {
            file.path + " (resuming from "@ + human + ")"@
        } else {
            file.path
        })
    }
}

/// What to do about a file, given how the size of what is there reads.
pub fn file_step_with(file: &ResolvedModelFile, existing_size: u64, human: &str) -> (step: FileStep)
    ensures
        is_file_step(file@, existing_size, human@, step),
{
    if file_is_complete(existing_size, file.expected_size) {
        return FileStep::Keep { progress: existing_size };
    }
    let message = if existing_size > 0 {
        let mut message = concat3(file.relative_path.as_str(), " (resuming from ", human);
        message.append(")");
        message
    } else {
        file.relative_path.as_str().to_string()
    };
    FileStep::Fetch { progress: existing_size, message }
}

/// What to do about a file.
pub fn file_step(file: &ResolvedModelFile, existing_size: u64) -> (step: FileStep)
    ensures
        is_file_step(file@, existing_size, human_bytes_text(existing_size), step),
{
    let human = human_bytes(existing_size);
    file_step_with(file, existing_size, human.as_str())
}

pub open spec fn finished_text(
    choice: ModelChoice,
    compute_type: Option<ModelComputeType>,
) -> Seq<char> {
    "  downloaded model ["@ + choice.runtime_name_text() + (match compute_type {
        Some(compute_type) => " / "@ + compute_type.label_text(),
        None => ""@,
    }) + "]"@
}

/// What is said when all files are there.
pub fn finished_message(choice: ModelChoice, compute_type: Option<ModelComputeType>) -> (text:
    String)
    ensures
        text@ == finished_text(choice, compute_type),
{
    let mut text = concat2("  downloaded model [", choice.runtime_name());
    match compute_type {
        Some(compute_type) => {
            text.append(" / ");
            text.append(compute_type.label());
            assert("  downloaded model ["@ + choice.runtime_name_text() + (" / "@
                + compute_type.label_text()) =~= text@);
        },
        None => {
            proof {
                reveal_strlit("");
            }
            assert("  downloaded model ["@ + choice.runtime_name_text() + ""@ =~= text@);
        },
    }
    text.append("]");
    text
}

/// What is said when the list of files is there.
pub fn manifest_message(files: usize) -> (text: String)
    ensures
        text@ == "manifest ready ["@ + decimal(files as nat) + " files]"@,
{
    concat3("manifest ready [", decimal_text(files as u64).as_str(), " files]")
}

// ---------------------------------------------------------------------------
// Fetching a file
// ---------------------------------------------------------------------------

/// From this size on another program fetches a file, if it can.
pub const CURL_DOWNLOAD_THRESHOLD: u64 = 8388608;

/// How a file is fetched.
#[derive(Clone, Copy, Debug, PartialEq, Eq, Structural)]
pub enum FetchState {
    /// With the other program.
    Curl,
    /// Asking for what is missing of the file.
    Ask,
    /// Asking for the whole file, since the rest alone was not to be had.
    Restart,
    /// Writing what comes behind what is there.
    Append,
    /// Writing what comes to a new file, which is then measured.
    Create,
    /// Writing what comes to a new file, and that is that.
    CreateAfterRestart,
    /// Measuring the file.
    Measure,
    /// The server refuses.
    Refused,
    /// The file has another size than was expected.
    WrongSize { actual: u64, expected: u64 },
    Done,
}

impl FetchState {
    /// The most events that can come before the end.
    pub open spec fn events_left(self) -> nat {
        match self {
            FetchState::Curl => 6,
            FetchState::Ask => 5,
            FetchState::Restart => 4,
            FetchState::Append | FetchState::Create | FetchState::CreateAfterRestart => 3,
            FetchState::Measure => 2,
            _ => 0,
        }
    }
}

/// A file on its way.
#[derive(Clone, Copy, Debug)]
pub struct Fetch {
    pub expected_size: Option<u64>,
    pub existing_size: u64,
    pub state: FetchState,
}

impl Fetch {
    pub open spec fn uses_curl(expected: Option<u64>) -> bool {
        expected is Some && expected->0 >= CURL_DOWNLOAD_THRESHOLD
    }

    pub fn new(expected_size: Option<u64>, existing_size: u64) -> (fetch: Self)
        ensures
            fetch.expected_size == expected_size,
            fetch.existing_size == existing_size,
            fetch.state == (if Self::uses_curl(expected_size) {
                FetchState::Curl
            } else {
                FetchState::Ask
            }),
    {
        let large = match expected_size {
            Some(expected) => expected >= CURL_DOWNLOAD_THRESHOLD,
            None => false,
        };
        Fetch {
            expected_size,
            existing_size,
            state: if large {
                FetchState::Curl
            } else {
                FetchState::Ask
            },
        }
    }

    /// The other program has ended: where it failed, the file is asked for here.
    pub fn after_curl(&mut self, succeeded: bool)
        requires
            old(self).state == FetchState::Curl,
        ensures
            final(self).state.events_left() < old(self).state.events_left(),
            *final(self) == (Fetch {
                state: if succeeded {
                    FetchState::Done
                } else {
                    FetchState::Ask
                },
                ..*old(self)
            }),
    {
        self.state = if succeeded {
            FetchState::Done
        } else {
            FetchState::Ask
        };
    }

    pub open spec fn answered(self, status: u16) -> FetchState {
        if self.existing_size > 0 {
            if status == 206 {
                FetchState::Append
            } else {
                FetchState::Restart
            }
        } else if 200 <= status < 300 {
            FetchState::Create
        } else {
            FetchState::Refused
        }
    }

    /// The server has answered.  The rest of a file is taken where the server
    /// gives it; else the whole file is asked for again.
    pub fn after_answer(&mut self, status: u16)
        requires
            old(self).state == FetchState::Ask,
        ensures
            final(self).state.events_left() < old(self).state.events_left(),
            *final(self) == (Fetch { state: old(self).answered(status), ..*old(self) }),
    {
        self.state = if self.existing_size > 0 {
            if status == 206 {
                FetchState::Append
            } else {
                FetchState::Restart
            }
        } else if 200 <= status && status < 300 {
            FetchState::Create
        } else {
            FetchState::Refused
        };
    }

    /// The server has answered to the second question; what comes is written
    /// whatever it is.
    pub fn after_restart(&mut self)
        requires
            old(self).state == FetchState::Restart,
        ensures
            final(self).state.events_left() < old(self).state.events_left(),
            *final(self) == (Fetch { state: FetchState::CreateAfterRestart, ..*old(self) }),
    {
        self.state = FetchState::CreateAfterRestart;
    }

    /// All that came has been written.
    pub fn after_writing(&mut self)
        requires
            old(self).state == FetchState::Append || old(self).state == FetchState::Create
                || old(self).state == FetchState::CreateAfterRestart,
        ensures
            final(self).state.events_left() < old(self).state.events_left(),
            *final(self) == (Fetch {
                state: if old(self).state == FetchState::CreateAfterRestart
                    || old(self).expected_size is None {
                    FetchState::Done
                } else {
                    FetchState::Measure
                },
                ..*old(self)
            }),
    {
        self.state = if self.state == FetchState::CreateAfterRestart
            || self.expected_size.is_none() {
            FetchState::Done
        } else {
            FetchState::Measure
        };
    }

    /// The file has been measured.
    pub fn after_measuring(&mut self, actual: u64)
        requires
            old(self).state == FetchState::Measure,
            old(self).expected_size is Some,
        ensures
            final(self).state.events_left() < old(self).state.events_left(),
            *final(self) == (Fetch {
                state: if actual == old(self).expected_size->0 {
                    FetchState::Done
                } else {
                    FetchState::WrongSize { actual, expected: old(self).expected_size->0 }
                },
                ..*old(self)
            }),
    {
        match self.expected_size {
            Some(expected) => {
                self.state = if actual == expected {
                    FetchState::Done
                } else {
                    FetchState::WrongSize { actual, expected }
                };
            },
            None => {},
        }
    }

    /// The part of the file to ask for, where some of it is there.
    pub fn range_header(&self) -> (range: Option<String>)
        ensures
            match range {
                Some(range) => self.existing_size > 0 && range@ == "bytes="@ + decimal(
                    self.existing_size as nat,
                ) + "-"@,
                None => self.existing_size == 0,
            },
    {
        if self.existing_size > 0 {
            Some(concat3("bytes=", decimal_text(self.existing_size).as_str(), "-"))
        } else {
            None
        }
    }
}

pub open spec fn wrong_size_text(path: Seq<char>, actual: u64, expected: u64) -> Seq<char> {
    "downloaded `"@ + path + "` but received "@ + decimal(actual as nat) + " bytes instead of "@
        + decimal(expected as nat)
}

/// What is said of a file of another size than was expected.
pub fn wrong_size_message(path: &str, actual: u64, expected: u64) -> (text: String)
    ensures
        text@ == wrong_size_text(path@, actual, expected),
{
    let mut text = concat3("downloaded `", path, "` but received ");
    text.append(decimal_text(actual).as_str());
    text.append(" bytes instead of ");
    text.append(decimal_text(expected).as_str());
    text
}

/// What the other program is told of the part that is there.
pub fn curl_resume_argument(existing_size: u64) -> (argument: Option<String>)
    ensures
        match argument {
            Some(argument) => existing_size > 0 && argument@ == decimal(existing_size as nat),
            None => existing_size == 0,
        },
{
    if existing_size > 0 {
        Some(decimal_text(existing_size))
    } else {
        None
    }
}

/// How much of the file the other program brought.
pub fn curl_progress(existing_size: u64, new_size: u64) -> (progress: Option<u64>)
    ensures
        match progress {
            Some(progress) => new_size > existing_size && progress == new_size - existing_size,
            None => new_size <= existing_size,
        },
{
    if new_size > existing_size {
        Some(new_size - existing_size)
    } else {
        None
    }
}

/// What is said where the other program fails.
pub fn curl_failure(path: &str, complaint: &str) -> (text: String)
    ensures
        text@ == "curl failed for `"@ + path@ + "`: "@ + trimmed(complaint@),
{
    let mut text = concat3("curl failed for `", path, "`: ");
    text.append(complaint.trim());
    text
}

/// An entry of a list is a file unless its name ends in a slash.
pub proof fn law_directories_are_not_listed(siblings: Seq<HfSibling>, sibling: HfSibling)
    ensures
        listed(Seq::<HfSibling>::empty()).len() == 0,
        sibling.rfilename@.len() > 0 && sibling.rfilename@.last() == '/' ==> listed(
            siblings.push(sibling),
        ) == listed(siblings),
        sibling.rfilename@.len() == 0 || sibling.rfilename@.last() != '/' ==> listed(
            siblings.push(sibling),
        ) == listed(siblings).push(sibling),
{
    assert(siblings.push(sibling).drop_last() =~= siblings);
}

/// A needed file is fetched under its own name, from the repository of its model,
/// and has the size that the list gives, or else that of the stored object.
pub proof fn law_needed_files_are_described(
    choice: ModelChoice,
    manifest: Seq<HfSibling>,
    file: HfSibling,
    required: Seq<Seq<char>>,
)
    ensures
        needed_files(choice, Seq::<HfSibling>::empty(), required).len() == 0,
        !required.contains(file.rfilename@) ==> needed_files(
            choice,
            manifest.push(file),
            required,
        ) == needed_files(choice, manifest, required),
        required.contains(file.rfilename@) ==> {
            let more = needed_files(choice, manifest.push(file), required);
            &&& more.len() == needed_files(choice, manifest, required).len() + 1
            &&& more.drop_last() == needed_files(choice, manifest, required)
            &&& more.last().path == file.rfilename@
            &&& more.last().url == "https://huggingface.co/"@ + choice.repo_id_text()
                + "/resolve/main/"@ + file.rfilename@ + "?download=true"@
            &&& file.size is Some ==> more.last().size == file.size
            &&& file.size is None && file.lfs is Some ==> more.last().size == file.lfs->0.size
            &&& file.size is None && file.lfs is None ==> more.last().size is None
        },
{
    assert(manifest.push(file).drop_last() =~= manifest);
    let before = needed_files(choice, manifest, required);
    if required.contains(file.rfilename@) {
        assert(needed_files(choice, manifest.push(file), required).drop_last() =~= before);
    }
}

/// A model needs its settings, its vocabulary and its network, and the English one
/// a second network and, in single precision, the data of the first; eight bits
/// where no precision is asked for.
pub proof fn law_models_need_their_files(
    choice: ModelChoice,
    compute_type: Option<ModelComputeType>,
)
    ensures
        ({
            let names = required_names(choice, compute_type);
            let single = compute_type == Some(ModelComputeType::Float32);
            &&& choice == ModelChoice::GigaamV3 && single ==> names == seq![
                "v3_e2e_ctc.yaml"@,
                "v3_e2e_ctc_vocab.txt"@,
                "v3_e2e_ctc.onnx"@,
            ]
            &&& choice == ModelChoice::GigaamV3 && !single ==> names == seq![
                "v3_e2e_ctc.yaml"@,
                "v3_e2e_ctc_vocab.txt"@,
                "v3_e2e_ctc.int8.onnx"@,
            ]
            &&& choice == ModelChoice::ParakeetTdt06bV2 && single ==> names == seq![
                "config.json"@,
                "vocab.txt"@,
                "encoder-model.onnx"@,
                "encoder-model.onnx.data"@,
                "decoder_joint-model.onnx"@,
            ]
            &&& choice == ModelChoice::ParakeetTdt06bV2 && !single ==> names == seq![
                "config.json"@,
                "vocab.txt"@,
                "encoder-model.int8.onnx"@,
                "decoder_joint-model.int8.onnx"@,
            ]
        }),
{
}

/// A file is left alone where it has the size that is expected, or, where none
/// is, anything at all; else it is fetched, from where it stops.  The progress bar
/// moves on by what is there.
pub proof fn law_complete_files_are_left_alone(
    file: FileView,
    existing: u64,
    human: Seq<char>,
    step: FileStep,
)
    requires
        is_file_step(file, existing, human, step),
    ensures
        file.size matches Some(size) ==> (step is Keep <==> existing == size),
        file.size is None ==> (step is Keep <==> existing > 0),
        step matches FileStep::Keep { progress } ==> progress == existing,
        step matches FileStep::Fetch { progress, message } ==> {
            &&& progress == existing
            &&& existing == 0 ==> message@ == file.path
            &&& existing > 0 ==> message@ == file.path + " (resuming from "@ + human + ")"@
        },
{
}

/// The length of all files is the sum of the lengths that are known.
pub proof fn law_known_sizes_add_up(files: Seq<FileView>, file: FileView)
    ensures
        known_total(Seq::<FileView>::empty()) == 0,
        file.size is None ==> known_total(files.push(file)) == known_total(files),
        file.size matches Some(size) ==> known_total(files.push(file)) == known_total(files) + size,
{
    assert(files.push(file).drop_last() =~= files);
}

/// What comes is written behind what is there only where the server gives the part
/// that is missing; a whole file is never written behind a part.  Without a part
/// the answer counts where it is a success, and large files go to the other
/// program first.
pub proof fn law_parts_are_only_continued_by_parts(fetch: Fetch, status: u16)
    ensures
        fetch.existing_size > 0 && status == 206 ==> fetch.answered(status) == FetchState::Append,
        fetch.existing_size > 0 && status != 206 ==> fetch.answered(status) == FetchState::Restart,
        fetch.existing_size == 0 && 200 <= status <= 299 ==> fetch.answered(status)
            == FetchState::Create,
        fetch.existing_size == 0 && !(200 <= status <= 299) ==> fetch.answered(status)
            == FetchState::Refused,
        fetch.expected_size matches Some(size) ==> Fetch::uses_curl(fetch.expected_size) == (size
            >= 8 * 1024 * 1024),
        fetch.expected_size is None ==> !Fetch::uses_curl(fetch.expected_size),
{
}

/// The needed names stand in ascending order, each once and all of them.
pub proof fn law_names_stand_in_order(
    list: Seq<Seq<char>>,
    names: Seq<Seq<char>>,
    i: int,
    j: int,
)
    requires
        is_sorted_set_of(list, names),
        0 <= i < j < list.len(),
    ensures
        comes_before(list[i], list[j]),
        list[i] != list[j],
        forall|name: Seq<char>| #[trigger] list.contains(name) <==> names.contains(name),
{
    lemma_order(list[i], list[i], list[i]);
}

/// A name is missing where no entry of the list bears it, and missing names are
/// told in the order of the needed ones.
pub proof fn law_missing_names_are_told(
    required: Seq<Seq<char>>,
    name: Seq<char>,
    manifest: Seq<HfSibling>,
)
    ensures
        missing_names(Seq::<Seq<char>>::empty(), manifest).len() == 0,
        (exists|i: int| 0 <= i < manifest.len() && (#[trigger] manifest[i]).rfilename@ == name)
            ==> missing_names(required.push(name), manifest) == missing_names(required, manifest),
        (forall|i: int| 0 <= i < manifest.len() ==> (#[trigger] manifest[i]).rfilename@ != name)
            ==> missing_names(required.push(name), manifest) == missing_names(
            required,
            manifest,
        ).push(name),
{
    assert(required.push(name).drop_last() =~= required);
}

} // verus!
