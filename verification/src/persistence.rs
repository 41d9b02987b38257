//! Named state snapshots, each kept as one JSON file.

use vstd::prelude::*;

use crate::error::OrchestratorError;
use crate::files::{FileStep, StorePath};
use crate::ids::EntityId;

verus! {

/// Keeps each named value in a file of its own below one directory.
#[derive(Clone, Debug)]
pub struct JsonStateStore {
    pub directory: std::path::PathBuf,
}

/// Where the value of this name is kept.
pub open spec fn record_location(name: Seq<char>) -> Seq<Seq<char>> {
    seq![name + ".json"@]
}

/// Where what was found in place of the value of this name is put aside, with this mark.
pub open spec fn quarantine_location(name: Seq<char>, mark: EntityId) -> Seq<Seq<char>> {
    seq![name + ".json."@ + crate::ids::hyphenated(mark.value) + ".corrupt"@]
}

/// The steps write the value's JSON and a line feed into the file `temporary`, flush it, and let
/// it take the place of the value's file.
pub open spec fn saves(
    steps: Seq<FileStep>,
    name: Seq<char>,
    temporary: Seq<char>,
    json: Seq<u8>,
) -> bool {
    &&& steps.len() == 3
    &&& steps[0].writes(seq![temporary], json.push(10))
    &&& steps[1].syncs(seq![temporary])
    &&& steps[2].renames(seq![temporary], record_location(name))
}

/// The steps copy the value's file to its quarantine, and flush the copy.
pub open spec fn quarantines(steps: Seq<FileStep>, name: Seq<char>, mark: EntityId) -> bool {
    &&& steps.len() == 2
    &&& steps[0].copies(record_location(name), quarantine_location(name, mark))
    &&& steps[1].syncs(quarantine_location(name, mark))
}

/// The steps replace the value, after its file was put aside with the mark, if there is one.
pub open spec fn replaces(
    steps: Seq<FileStep>,
    name: Seq<char>,
    quarantine: Option<EntityId>,
    temporary: Seq<char>,
    json: Seq<u8>,
) -> bool {
    match quarantine {
        None => saves(steps, name, temporary, json),
        Some(mark) => {
            &&& steps.len() == 5
            &&& quarantines(steps.take(2), name, mark)
            &&& saves(steps.skip(2), name, temporary, json)
        },
    }
}

/// `name` ends in `suffix`.
pub open spec fn ends_in(name: Seq<char>, suffix: Seq<char>) -> bool {
    suffix.len() <= name.len() && name.skip(name.len() - suffix.len()) == suffix
}

/// The file through which the value of this name is written, where that is the same on every
/// platform: named as the value's file, with `tmp` added to its extension. Of an empty name, and
/// of one that ends in a slash, the value's file has no extension, so one is added.
pub open spec fn usual_temporary(name: Seq<char>) -> Option<Seq<char>> {
    if crate::files::is_share(name) {
        None
    } else if crate::files::ends_in_a_name(name) {
        Some(name + ".json.tmp"@)
    } else if name.len() == 0 || name.last() == '/' {
        Some(name + ".json.json.tmp"@)
    } else {
        None
    }
}

/// The value of this name can be written through the file `temporary`.
pub open spec fn is_temporary_of(name: Seq<char>, temporary: Seq<char>) -> bool {
    &&& ends_in(temporary, ".tmp"@)
    &&& usual_temporary(name) matches Some(usual) ==> temporary == usual
}

/// Tells whether `name` ends in `suffix`.
fn has_suffix(name: &str, suffix: &str) -> (r: bool)
    ensures
        r == ends_in(name@, suffix@),
{
    let chars = crate::text::char_vec(name);
    let end = crate::text::char_vec(suffix);
    if end.len() > chars.len() {
        return false;
    }
    let tail = name.substring_char(chars.len() - end.len(), chars.len());
    assert(tail@ =~= name@.skip(name@.len() - suffix@.len()));
    crate::text::same_text(tail, suffix)
}

/// The file through which the value of this name is to be written. Where the name stands for no
/// file on the platform, neither does this, and then it need not end in `.tmp`.
fn temporary_for(name: &str) -> (r: String)
    ensures
        usual_temporary(name@) matches Some(usual) ==> is_temporary_of(name@, r@),
        ends_in(r@, ".tmp"@) ==> is_temporary_of(name@, r@),
{
    let file = name.to_owned().concat(".json");
    proof {
        reveal_strlit("json.tmp");
    }
    let temporary = crate::files::with_extension(file.as_str(), "json.tmp");
    proof {
        reveal_strlit(".json");
        reveal_strlit(".tmp");
        reveal_strlit(".json.tmp");
        reveal_strlit(".json.json.tmp");
        let word = seq!['j', 's', 'o', 'n'];
        assert(file@ =~= name@ + seq!['.'] + word);
        assert(crate::files::is_one_word(word));
        assert(!crate::files::is_share(name@) ==> !crate::files::is_share(file@));
        if !crate::files::is_share(name@) {
            if crate::files::ends_in_a_name(name@) {
                assert(crate::files::has_extension(file@, name@, word));
                assert(temporary@ =~= name@ + ".json.tmp"@);
            } else if name@.len() == 0 || name@.last() == '/' {
                assert(crate::files::is_dot_file(file@, name@, word));
                assert(temporary@ =~= name@ + ".json.json.tmp"@);
            }
        }
        if usual_temporary(name@) is Some {
            assert(temporary@.skip(temporary@.len() - 4) =~= ".tmp"@);
        }
    }
    temporary
}

/// The bytes are one JSON value.
pub uninterp spec fn is_json(bytes: Seq<u8>) -> bool;

/// Parses the bytes through `from_slice` of [`serde_json`], as a value of any kind, and tells
/// whether it took them.
#[verifier::external_body]
fn parses(bytes: &[u8]) -> (r: bool)
    ensures
        r == is_json(bytes@),
{
    serde_json::from_slice::<serde_json::Value>(bytes).is_ok()
}

/// Something is stored, and it is no JSON.
pub open spec fn is_corrupt(stored: Option<&Vec<u8>>) -> bool {
    stored matches Some(bytes) && !is_json(bytes@)
}

/// The error of a write to a place that stands for no file, made through `From<ErrorKind>` of
/// [`std::io::Error`]. Nothing is claimed of it.
#[verifier::external_body]
fn no_file_error() -> (e: std::io::Error) {
    std::io::Error::from(std::io::ErrorKind::InvalidInput)
}

impl JsonStateStore {
    /// A store in this directory.
    pub fn new(directory: std::path::PathBuf) -> (store: Self)
        ensures
            store.directory == directory,
    {
        JsonStateStore { directory }
    }

    /// Where the value of this name is kept, below the store's directory.
    pub fn path(&self, name: &str) -> (r: StorePath)
        ensures
            r@ == record_location(name@),
            r@ == seq![name@ + ".json"@],
    {
        let r = StorePath::root().join(name.to_owned().concat(".json").as_str());
        assert(r@ =~= record_location(name@));
        r
    }

    /// Plans how the value of this name is replaced, by way of the file `temporary`.
    pub fn save_through(&self, name: &str, temporary: &str, json: Vec<u8>) -> (steps: Vec<FileStep>)
        ensures
            saves(steps@, name@, temporary@, json@),
            steps@.len() == 3,
            steps@[0] is WriteFile && steps@[0]->WriteFile_path@ == seq![temporary@]
                && steps@[0]->contents@ == json@.push(10),
            steps@[1] is SyncFile && steps@[1]->SyncFile_path@ == seq![temporary@],
            steps@[2] is RenameFile && steps@[2]->RenameFile_from@ == seq![temporary@]
                && steps@[2]->RenameFile_to@ == seq![name@ + ".json"@],
    {
        let mut contents = json;
        contents.push(10);
        let temporary = StorePath::root().join(temporary);
        let mut steps: Vec<FileStep> = Vec::new();
        assert(temporary@ =~= seq![temporary@[0]]);
        steps.push(FileStep::WriteFile { path: temporary.duplicate(), contents });
        steps.push(FileStep::SyncFile { path: temporary.duplicate() });
        steps.push(FileStep::RenameFile { from: temporary, to: self.path(name) });
        steps
    }

    /// Plans how what is found in place of the value of this name is put aside, with this mark.
    pub fn quarantine_marked(&self, name: &str, mark: EntityId) -> (steps: Vec<FileStep>)
        ensures
            quarantines(steps@, name@, mark),
            steps@.len() == 2,
            steps@[0] is CopyFile && steps@[0]->CopyFile_from@ == seq![name@ + ".json"@]
                && steps@[0]->CopyFile_to@ == seq![
                name@ + ".json."@ + crate::ids::hyphenated(mark.value) + ".corrupt"@,
            ],
            steps@[1] is SyncFile && steps@[1]->SyncFile_path@ == steps@[0]->CopyFile_to@,
    {
        let file = name.to_owned().concat(".json.").concat(mark.text().as_str()).concat(".corrupt");
        let quarantine = StorePath::root().join(file.as_str());
        assert(quarantine@ =~= quarantine_location(name@, mark));
        let mut steps: Vec<FileStep> = Vec::new();
        steps.push(FileStep::CopyFile { from: self.path(name), to: quarantine.duplicate() });
        steps.push(FileStep::SyncFile { path: quarantine });
        steps
    }

    /// Plans how the value of this name is replaced, by way of the file `temporary`, after what is
    /// found in its place was put aside with the mark, if there is one. A `temporary` that does
    /// not end in `.tmp` stands for no file, and nothing can be written through it.
    pub fn save_marked(
        &self,
        name: &str,
        quarantine: Option<EntityId>,
        temporary: &str,
        json: Vec<u8>,
    ) -> (r: Result<Vec<FileStep>, OrchestratorError>)
        ensures
            r is Ok <==> ends_in(temporary@, ".tmp"@),
            r is Ok <==> (exists|stem: Seq<char>| #[trigger] (stem + ".tmp"@) == temporary@),
            r matches Ok(steps) ==> replaces(steps@, name@, quarantine, temporary@, json@),
            r matches Err(e) ==> e is Io,
    {
        proof {
            let t = temporary@;
            let m = t.len() - ".tmp"@.len();
            if ends_in(t, ".tmp"@) {
                assert(t.take(m) + ".tmp"@ =~= t) by {
                    assert(t.take(m) + t.skip(m) =~= t);
                }
            }
            assert forall|stem: Seq<char>| #[trigger] (stem + ".tmp"@) == t implies ends_in(
                t,
                ".tmp"@,
            ) by {
                assert((stem + ".tmp"@).skip(stem.len() as int) =~= ".tmp"@);
            }
        }
        if !has_suffix(temporary, ".tmp") {
            return Err(OrchestratorError::Io(no_file_error()));
        }
        let mut replacement = self.save_through(name, temporary, json);
        match quarantine {
            None => Ok(replacement),
            Some(mark) => {
                let mut steps = self.quarantine_marked(name, mark);
                let ghost first = steps@;
                let ghost then = replacement@;
                steps.append(&mut replacement);
                assert(steps@.take(2) =~= first);
                assert(steps@.skip(2) =~= then);
                Ok(steps)
            },
        }
    }

    /// Plans how the value of this name is replaced by the one whose JSON is given, by way of a
    /// temporary file, given the bytes that are stored under the name, if any. Stored bytes that
    /// are no JSON are first put aside with a random mark, rather than overwritten. How the
    /// temporary file is named, and whether there can be one, where the parts of `name` depend on
    /// the platform, or its last part is a dot, is up to the platform.
    pub fn save(&self, name: &str, stored: Option<&Vec<u8>>, json: Vec<u8>) -> (r: Result<
        Vec<FileStep>,
        OrchestratorError,
    >)
        ensures
            usual_temporary(name@) is Some ==> r is Ok,
            r matches Ok(steps) ==> exists|quarantine: Option<EntityId>, temporary: Seq<char>|
                {
                    &&& is_temporary_of(name@, temporary)
                    &&& quarantine is Some <==> is_corrupt(stored)
                    &&& quarantine matches Some(mark) ==> crate::ids::is_version_four(mark.value)
                    &&& #[trigger] replaces(steps@, name@, quarantine, temporary, json@)
                },
            r matches Err(e) ==> e is Io,
    {
        let corrupt = match stored {
            Some(bytes) => !parses(bytes.as_slice()),
            None => false,
        };
        let quarantine = if corrupt {
            Some(EntityId::random())
        } else {
            None
        };
        let temporary = temporary_for(name);
        self.save_marked(name, quarantine, temporary.as_str(), json)
    }

    /// Where to read the value of this name from, given whether its file exists; a value whose
    /// file does not exist was never saved.
    pub fn load(&self, name: &str, exists: bool) -> (r: Option<StorePath>)
        ensures
            r is Some <==> exists,
            r matches Some(path) ==> path@ == record_location(name@),
            r matches Some(path) ==> path@ == seq![name@ + ".json"@],
    {
        if exists {
            Some(self.path(name))
        } else {
            None
        }
    }
}

proof fn lemma_endings(name: Seq<char>, temporary: Seq<char>, marked: Seq<char>, mark: EntityId)
    requires
        ends_in(temporary, ".tmp"@),
    ensures
        record_location(name) != seq![temporary],
        record_location(name) != quarantine_location(marked, mark),
        quarantine_location(marked, mark) != seq![temporary],
{
    reveal_strlit(".json");
    reveal_strlit(".tmp");
    reveal_strlit(".corrupt");
    let tail = temporary.skip(temporary.len() - 4);
    assert(tail[3] == 'p');
    assert(temporary.last() == 'p');
    assert(record_location(name)[0].last() == 'n');
    assert(quarantine_location(marked, mark)[0].last() == 't');
    assert(seq![temporary][0].last() == 'p');
}

proof fn lemma_records_differ(name: Seq<char>, other: Seq<char>)
    requires
        name != other,
    ensures
        record_location(name) != record_location(other),
{
    let here = record_location(name);
    let there = record_location(other);
    if here == there {
        assert(here[0] == there[0]);
        assert(here[0].len() == there[0].len());
        assert(here[0].take(name.len() as int) =~= name);
        assert(there[0].take(other.len() as int) =~= other);
    }
}

/// What the first `done` steps of a replacement make of the files: the quarantine, if there is
/// one, and the temporary file come and go, and nothing but the last step touches a record.
proof fn lemma_replacement(
    steps: Seq<FileStep>,
    name: Seq<char>,
    quarantine: Option<EntityId>,
    temporary: Seq<char>,
    json: Seq<u8>,
    files: Map<Seq<Seq<char>>, Seq<u8>>,
    done: int,
)
    requires
        replaces(steps, name, quarantine, temporary, json),
        ends_in(temporary, ".tmp"@),
        0 <= done <= steps.len(),
    ensures
        ({
            let here = record_location(name);
            let aside = match quarantine {
                Some(mark) => if done > 0 && files.contains_key(here) {
                    files.insert(quarantine_location(name, mark), files[here])
                } else {
                    files
                },
                None => files,
            };
            let now = crate::files::performed(steps.take(done), files);
            if done == steps.len() {
                now == aside.remove(seq![temporary]).insert(here, json.push(10))
            } else {
                now.remove(seq![temporary]) == aside.remove(seq![temporary])
            }
        }),
{
    let here = record_location(name);
    let t = seq![temporary];
    let contents = json.push(10);
    match quarantine {
        None => {
            lemma_endings(name, temporary, name, EntityId { value: 0 });
            assert(crate::files::is_replacement(steps, t, here, contents));
            crate::files::replacement_is_atomic(steps, t, here, contents, files, done);
        },
        Some(mark) => {
            let there = quarantine_location(name, mark);
            lemma_endings(name, temporary, name, mark);
            let head = steps.take(2);
            let tail = steps.skip(2);
            assert(head[0] == steps[0] && head[1] == steps[1]);
            let aside = if files.contains_key(here) {
                files.insert(there, files[here])
            } else {
                files
            };
            assert(crate::files::performed(steps.take(0), files) == files);
            assert(steps.take(1).drop_last() =~= steps.take(0));
            assert(crate::files::performed(steps.take(1), files) == aside);
            assert(steps.take(2).drop_last() =~= steps.take(1));
            assert(crate::files::performed(steps.take(2), files) == aside);
            if done >= 2 {
                assert(steps.take(done) =~= head + tail.take(done - 2));
                crate::files::performing_is_sequential(head, tail.take(done - 2), files);
                assert(crate::files::is_replacement(tail, t, here, contents));
                crate::files::replacement_is_atomic(tail, t, here, contents, aside, done - 2);
            }
        },
    }
}

/// What is saved under a name is what the file holds that a load of that name reads, with a line
/// feed behind it, and no value saved under another name changes.
pub proof fn load_reads_what_save_wrote(
    steps: Seq<FileStep>,
    name: Seq<char>,
    quarantine: Option<EntityId>,
    temporary: Seq<char>,
    json: Seq<u8>,
    other: Seq<char>,
    files: Map<Seq<Seq<char>>, Seq<u8>>,
)
    requires
        replaces(steps, name, quarantine, temporary, json),
        is_temporary_of(name, temporary),
        other != name,
    ensures
        ({
            let after = crate::files::performed(steps, files);
            let here = record_location(name);
            let there = record_location(other);
            &&& after.contains_key(here) && after[here] == json.push(10)
            &&& after.contains_key(there) == files.contains_key(there)
            &&& files.contains_key(there) ==> after[there] == files[there]
        }),
{
    let n = steps.len() as int;
    assert(steps.take(n) =~= steps);
    lemma_replacement(steps, name, quarantine, temporary, json, files, n);
    lemma_records_differ(name, other);
    let mark = match quarantine {
        Some(mark) => mark,
        None => EntityId { value: 0 },
    };
    lemma_endings(other, temporary, name, mark);
}

/// A save that fails leaves every value as it was, the one that it was to replace among them:
/// wherever its steps are cut short, a load of any name reads what it read before. (A save that is
/// refused has no steps.)
pub proof fn a_save_that_fails_changes_no_value(
    steps: Seq<FileStep>,
    name: Seq<char>,
    quarantine: Option<EntityId>,
    temporary: Seq<char>,
    json: Seq<u8>,
    any: Seq<char>,
    files: Map<Seq<Seq<char>>, Seq<u8>>,
    done: int,
)
    requires
        replaces(steps, name, quarantine, temporary, json),
        is_temporary_of(name, temporary),
        0 <= done < steps.len(),
    ensures
        ({
            let now = crate::files::performed(steps.take(done), files);
            let there = record_location(any);
            &&& now.contains_key(there) == files.contains_key(there)
            &&& files.contains_key(there) ==> now[there] == files[there]
        }),
{
    lemma_replacement(steps, name, quarantine, temporary, json, files, done);
    let mark = match quarantine {
        Some(mark) => mark,
        None => EntityId { value: 0 },
    };
    lemma_endings(any, temporary, name, mark);
    lemma_endings(name, temporary, name, mark);
    let t = seq![temporary];
    let there = record_location(any);
    let now = crate::files::performed(steps.take(done), files);
    assert(now.remove(t).contains_key(there) == now.contains_key(there));
    if now.contains_key(there) {
        assert(now.remove(t)[there] == now[there]);
    }
}

/// A corrupt record is put aside, not overwritten: from the first step on, however far the save
/// comes, its quarantine holds the very bytes that were stored, and every quarantine of another
/// record or with another mark is what it was.
pub proof fn corrupt_records_are_quarantined(
    steps: Seq<FileStep>,
    name: Seq<char>,
    mark: EntityId,
    temporary: Seq<char>,
    json: Seq<u8>,
    files: Map<Seq<Seq<char>>, Seq<u8>>,
    done: int,
    other: Seq<char>,
    other_mark: EntityId,
)
    requires
        replaces(steps, name, Some(mark), temporary, json),
        is_temporary_of(name, temporary),
        files.contains_key(record_location(name)),
        1 <= done <= steps.len(),
    ensures
        ({
            let now = crate::files::performed(steps.take(done), files);
            let aside = quarantine_location(name, mark);
            let elsewhere = quarantine_location(other, other_mark);
            &&& now.contains_key(aside) && now[aside] == files[record_location(name)]
            &&& elsewhere != aside ==> {
                &&& now.contains_key(elsewhere) == files.contains_key(elsewhere)
                &&& files.contains_key(elsewhere) ==> now[elsewhere] == files[elsewhere]
            }
        }),
        other == name && other_mark != mark ==> quarantine_location(other, other_mark)
            != quarantine_location(name, mark),
{
    lemma_replacement(steps, name, Some(mark), temporary, json, files, done);
    lemma_endings(name, temporary, name, mark);
    lemma_endings(name, temporary, other, other_mark);
    let t = seq![temporary];
    let now = crate::files::performed(steps.take(done), files);
    let aside = quarantine_location(name, mark);
    let elsewhere = quarantine_location(other, other_mark);
    assert(now.remove(t).contains_key(aside) == now.contains_key(aside));
    assert(now.remove(t).contains_key(elsewhere) == now.contains_key(elsewhere));
    if now.contains_key(aside) {
        assert(now.remove(t)[aside] == now[aside]);
    }
    if now.contains_key(elsewhere) {
        assert(now.remove(t)[elsewhere] == now[elsewhere]);
    }
    if other == name && aside == elsewhere {
        let head = (name + ".json."@).len() as int;
        assert(aside[0] == elsewhere[0]);
        assert(aside[0].subrange(head, head + 36) =~= crate::ids::hyphenated(mark.value));
        assert(elsewhere[0].subrange(head, head + 36) =~= crate::ids::hyphenated(other_mark.value));
        crate::ids::hyphenated_is_injective(mark.value, other_mark.value);
    }
}

/// A value is kept in the file of its name and `.json`, what is put aside in one of the same name
/// with the mark and `.corrupt` behind, and it is put aside exactly where it is no JSON.
pub proof fn records_are_kept_under_their_names(
    name: Seq<char>,
    mark: EntityId,
    stored: Option<&Vec<u8>>,
)
    ensures
        record_location(name) == seq![name + ".json"@],
        quarantine_location(name, mark) == seq![
            name + ".json."@ + crate::ids::hyphenated(mark.value) + ".corrupt"@,
        ],
        is_corrupt(stored) <==> stored is Some && !is_json(stored->0@),
{
}

/// A replacement writes all of the JSON and a line feed into the temporary file, flushes it and
/// renames it to the value's file, after copying that file aside and flushing the copy, if it is
/// to be put aside; and it does nothing else.
pub proof fn a_replacement_is_these_steps(
    steps: Seq<FileStep>,
    name: Seq<char>,
    quarantine: Option<EntityId>,
    temporary: Seq<char>,
    json: Seq<u8>,
)
    requires
        replaces(steps, name, quarantine, temporary, json),
    ensures
        ({
            let n = steps.len() as int;
            let here = seq![name + ".json"@];
            let t = seq![temporary];
            &&& n == if quarantine is Some {
                5int
            } else {
                3int
            }
            &&& steps[n - 3] matches FileStep::WriteFile { path, contents } && path@ == t
                && contents@ == json.push(10)
            &&& steps[n - 2] matches FileStep::SyncFile { path } && path@ == t
            &&& steps[n - 1] matches FileStep::RenameFile { from, to } && from@ == t && to@ == here
            &&& quarantine matches Some(mark) ==> {
                let aside = seq![
                    name + ".json."@ + crate::ids::hyphenated(mark.value) + ".corrupt"@,
                ];
                &&& steps[0] matches FileStep::CopyFile { from, to } && from@ == here && to@ == aside
                &&& steps[1] matches FileStep::SyncFile { path } && path@ == aside
            }
        }),
{
    if let Some(mark) = quarantine {
        let head = steps.take(2);
        let tail = steps.skip(2);
        assert(head[0] == steps[0] && head[1] == steps[1]);
        assert(tail[0] == steps[2] && tail[1] == steps[3] && tail[2] == steps[4]);
    }
}

/// The temporary file is that of the value with `.tmp` behind, where the name ends in the name of a
/// file, and with `.json.tmp` behind, where the name is empty or ends in a slash; it ends in `.tmp`
/// in any case. Left to the platform is a name that starts with two slashes, or ends in a
/// backslash, in a colon, or in a part that is a single dot.
pub proof fn temporary_files_are_named_after_the_value(name: Seq<char>, temporary: Seq<char>)
    requires
        is_temporary_of(name, temporary),
    ensures
        ({
            let n = name.len() as int;
            let shared = n >= 2 && (name[0] == '/' || name[0] == '\\') && (name[1] == '/' || name[1]
                == '\\');
            let separates = |c: char| c == '/' || c == '\\' || c == ':';
            &&& temporary.len() >= 4
            &&& temporary.skip(temporary.len() - 4) == ".tmp"@
            &&& !shared && n > 0 && !separates(name[n - 1]) && (name[n - 1] == '.' ==> n > 1
                && !separates(name[n - 2])) ==> temporary == name + ".json"@ + ".tmp"@
            &&& !shared && (n == 0 || name[n - 1] == '/') ==> temporary == name + ".json"@
                + ".json.tmp"@
        }),
{
    reveal_strlit(".tmp");
    reveal_strlit(".json");
    reveal_strlit(".json.tmp");
    reveal_strlit(".json.json.tmp");
    assert(name + ".json.tmp"@ =~= name + ".json"@ + ".tmp"@);
    assert(name + ".json.json.tmp"@ =~= name + ".json"@ + ".json.tmp"@);
}

} // verus!
