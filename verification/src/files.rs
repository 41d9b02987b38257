//! Locations below a store's directory, and the file operations that a store asks for.
//!
//! A store plans its writes as a list of steps; whoever owns the disk performs them in order and
//! stops at the first that fails.

use vstd::prelude::*;

verus! {

/// A location below a store's directory: the names on the way down, outermost first.
#[derive(Clone, Debug, PartialEq, Eq)]
pub struct StorePath {
    pub segments: Vec<String>,
}

impl View for StorePath {
    type V = Seq<Seq<char>>;

    open spec fn view(&self) -> Seq<Seq<char>> {
        self.segments.deep_view()
    }
}

impl StorePath {
    /// The store's directory itself.
    pub fn root() -> (r: StorePath)
        ensures
            r@ == Seq::<Seq<char>>::empty(),
            r.segments@.len() == 0,
    {
        let r = StorePath { segments: Vec::new() };
        assert(r@ =~= Seq::<Seq<char>>::empty());
        r
    }

    /// A copy of the location.
    pub fn duplicate(&self) -> (r: StorePath)
        ensures
            r@ == self@,
            r.segments@.len() == self.segments@.len(),
            forall|i: int|
                0 <= i < self.segments@.len() ==> (#[trigger] r.segments@[i])@
                    == self.segments@[i]@,
    {
        let r = StorePath { segments: self.segments.clone() };
        assert(r@ =~= self@);
        proof {
            a_location_is_its_segments(r);
            a_location_is_its_segments(*self);
        }
        r
    }

    /// The location named `segment` in the directory at this location.
    pub fn join(&self, segment: &str) -> (r: StorePath)
        ensures
            r@ == self@.push(segment@),
            r.segments@.len() == self.segments@.len() + 1,
            r.segments@.last()@ == segment@,
            forall|i: int|
                0 <= i < self.segments@.len() ==> (#[trigger] r.segments@[i])@
                    == self.segments@[i]@,
    {
        let mut segments = self.segments.clone();
        segments.push(segment.to_owned());
        let r = StorePath { segments };
        assert(r@ =~= self@.push(segment@));
        proof {
            a_location_is_its_segments(r);
            a_location_is_its_segments(*self);
        }
        r
    }

    /// The directory that holds this location; the store's own directory has none.
    pub fn parent(&self) -> (r: Option<StorePath>)
        ensures
            r is None <==> self@.len() == 0,
            r matches Some(p) ==> p@ == self@.drop_last(),
            r is None <==> self.segments@.len() == 0,
            r matches Some(p) ==> p.segments@.len() == self.segments@.len() - 1 && forall|i: int|
                0 <= i < p.segments@.len() ==> (#[trigger] p.segments@[i])@ == self.segments@[i]@,
    {
        if self.segments.len() == 0 {
            None
        } else {
            let mut segments = self.segments.clone();
            segments.pop();
            let r = StorePath { segments };
            assert(r@ =~= self@.drop_last());
            proof {
                a_location_is_its_segments(r);
                a_location_is_its_segments(*self);
            }
            Some(r)
        }
    }
}

/// A location is the texts of its segments, one for one.
pub proof fn a_location_is_its_segments(path: StorePath)
    ensures
        path@.len() == path.segments@.len(),
        forall|i: int| 0 <= i < path@.len() ==> #[trigger] path@[i] == path.segments@[i]@,
        forall|i: int| 0 <= i < path@.len() ==> path@[i] == (#[trigger] path.segments@[i])@,
{
}

/// `c` separates the parts of a path, or follows the letter of a drive, on some platform.
pub open spec fn separates_paths(c: char) -> bool {
    c == '/' || c == '\\' || c == ':'
}

/// `path` starts as the name of a network share does on some platforms.
pub open spec fn is_share(path: Seq<char>) -> bool {
    &&& path.len() >= 2
    &&& path[0] == '/' || path[0] == '\\'
    &&& path[1] == '/' || path[1] == '\\'
}

/// `stem` ends in the name of a file, on every platform, and that name is not a single dot.
pub open spec fn ends_in_a_name(stem: Seq<char>) -> bool {
    &&& stem.len() > 0
    &&& !separates_paths(stem.last())
    &&& stem.last() == '.' ==> stem.len() > 1 && !separates_paths(stem[stem.len() - 2])
}

/// `text` has no dot and nothing that separates the parts of a path, and it is not empty.
pub open spec fn is_one_word(text: Seq<char>) -> bool {
    &&& text.len() > 0
    &&& forall|i: int|
        0 <= i < text.len() ==> (#[trigger] text[i]) != '.' && !separates_paths(text[i])
}

/// `path` is `stem`, which ends in the name of a file, a dot, and an extension.
pub open spec fn has_extension(path: Seq<char>, stem: Seq<char>, extension: Seq<char>) -> bool {
    &&& path == stem + seq!['.'] + extension
    &&& ends_in_a_name(stem)
    &&& is_one_word(extension)
    &&& !is_share(path)
}

/// `path` is a directory, or nothing, and a file name whose only dot is its first character,
/// which sets off no extension.
pub open spec fn is_dot_file(path: Seq<char>, directory: Seq<char>, word: Seq<char>) -> bool {
    &&& path == directory + seq!['.'] + word
    &&& directory.len() == 0 || directory.last() == '/'
    &&& is_one_word(word)
    &&& !is_share(path)
}

/// Gives a path another extension through [`std::path::Path::with_extension`], which replaces the
/// extension of the path, adds one where the path has none, and panics on an extension with a
/// path separator in it. The extension is what follows the last dot of the file name, unless
/// that dot is its first character. What becomes of a path that names no file on some platform,
/// or whose file name depends on the platform, is left unsaid.
#[verifier::external_body]
pub(crate) fn with_extension(path: &str, extension: &str) -> (r: String)
    requires
        extension@.len() > 0,
        forall|i: int| 0 <= i < extension@.len() ==> !separates_paths(#[trigger] extension@[i]),
    ensures
        forall|stem: Seq<char>, replaced: Seq<char>| #[trigger]
            has_extension(path@, stem, replaced) ==> r@ == stem + seq!['.'] + extension@,
        forall|directory: Seq<char>, word: Seq<char>| #[trigger]
            is_dot_file(path@, directory, word) ==> r@ == path@ + seq!['.'] + extension@,
{
    std::path::Path::new(path).with_extension(extension).to_string_lossy().into_owned()
}

/// One operation on the disk.
#[derive(Clone, Debug, PartialEq, Eq)]
pub enum FileStep {
    /// Create the directory and those above it, as far as they are missing.
    CreateDirectory { path: StorePath },
    /// Create or truncate the file and write these bytes to it.
    WriteFile { path: StorePath, contents: Vec<u8> },
    /// Copy the file to another location, in place of a file that was there.
    CopyFile { from: StorePath, to: StorePath },
    /// Flush the file to the disk.
    SyncFile { path: StorePath },
    /// Give the file a new name, in place of a file that had it.
    RenameFile { from: StorePath, to: StorePath },
}

impl FileStep {
    pub open spec fn creates_directory(self, path: Seq<Seq<char>>) -> bool {
        self matches FileStep::CreateDirectory { path: p } && p@ == path
    }

    pub open spec fn writes(self, path: Seq<Seq<char>>, contents: Seq<u8>) -> bool {
        self matches FileStep::WriteFile { path: p, contents: c } && p@ == path && c@ == contents
    }

    pub open spec fn copies(self, from: Seq<Seq<char>>, to: Seq<Seq<char>>) -> bool {
        self matches FileStep::CopyFile { from: f, to: t } && f@ == from && t@ == to
    }

    pub open spec fn syncs(self, path: Seq<Seq<char>>) -> bool {
        self matches FileStep::SyncFile { path: p } && p@ == path
    }

    pub open spec fn renames(self, from: Seq<Seq<char>>, to: Seq<Seq<char>>) -> bool {
        self matches FileStep::RenameFile { from: f, to: t } && f@ == from && t@ == to
    }

    /// What the step makes of the files of a store, given as their locations and contents.
    /// Locations that differ are taken for different files.
    pub open spec fn effect(self, files: Map<Seq<Seq<char>>, Seq<u8>>) -> Map<
        Seq<Seq<char>>,
        Seq<u8>,
    > {
        match self {
            FileStep::CreateDirectory { path } => files,
            FileStep::WriteFile { path, contents } => files.insert(path@, contents@),
            FileStep::CopyFile { from, to } => if files.contains_key(from@) {
                files.insert(to@, files[from@])
            } else {
                files
            },
            FileStep::SyncFile { path } => files,
            FileStep::RenameFile { from, to } => if files.contains_key(from@) {
                files.remove(from@).insert(to@, files[from@])
            } else {
                files
            },
        }
    }
}

/// A step that is said to write, copy, flush, rename or create does just that, with just these
/// locations and contents.
pub proof fn steps_are_what_they_are_said_to_be(
    step: FileStep,
    path: Seq<Seq<char>>,
    other: Seq<Seq<char>>,
    bytes: Seq<u8>,
)
    ensures
        step.writes(path, bytes) <==> (step matches FileStep::WriteFile { path: p, contents } && p@
            == path && contents@ == bytes),
        step.copies(path, other) <==> (step matches FileStep::CopyFile { from, to } && from@ == path
            && to@ == other),
        step.renames(path, other) <==> (step matches FileStep::RenameFile { from, to } && from@
            == path && to@ == other),
        step.syncs(path) <==> (step matches FileStep::SyncFile { path: p } && p@ == path),
        step.creates_directory(path) <==> (step matches FileStep::CreateDirectory { path: p } && p@
            == path),
{
}

/// A file that was written holds what was written, one that was copied holds what its original
/// held, which stays, one that was renamed is found under its new name alone, and no step touches
/// another file.
pub proof fn steps_do_what_their_names_say(
    files: Map<Seq<Seq<char>>, Seq<u8>>,
    path: StorePath,
    contents: Vec<u8>,
    to: StorePath,
    other: Seq<Seq<char>>,
)
    ensures
        ({
            let written = (FileStep::WriteFile { path, contents }).effect(files);
            &&& written.contains_key(path@) && written[path@] == contents@
            &&& other != path@ ==> written.contains_key(other) == files.contains_key(other) && (
            files.contains_key(other) ==> written[other] == files[other])
        }),
        files.contains_key(path@) ==> {
            let copied = (FileStep::CopyFile { from: path, to }).effect(files);
            &&& copied.contains_key(to@) && copied[to@] == files[path@]
            &&& copied.contains_key(path@) && copied[path@] == files[path@]
            &&& other != to@ ==> copied.contains_key(other) == files.contains_key(other) && (
            files.contains_key(other) ==> copied[other] == files[other])
        },
        files.contains_key(path@) && path@ != to@ ==> {
            let renamed = (FileStep::RenameFile { from: path, to }).effect(files);
            &&& renamed.contains_key(to@) && renamed[to@] == files[path@]
            &&& !renamed.contains_key(path@)
            &&& other != to@ && other != path@ ==> renamed.contains_key(other)
                == files.contains_key(other) && (files.contains_key(other) ==> renamed[other]
                == files[other])
        },
        (FileStep::SyncFile { path }).effect(files) == files,
        (FileStep::CreateDirectory { path }).effect(files) == files,
{
}

/// What the steps, performed in order, make of the files of a store.
pub open spec fn performed(
    steps: Seq<FileStep>,
    files: Map<Seq<Seq<char>>, Seq<u8>>,
) -> Map<Seq<Seq<char>>, Seq<u8>>
    decreases steps.len(),
{
    if steps.len() == 0 {
        files
    } else {
        steps.last().effect(performed(steps.drop_last(), files))
    }
}

/// Performing one list of steps after another is performing the two as one list.
pub proof fn performing_is_sequential(
    first: Seq<FileStep>,
    then: Seq<FileStep>,
    files: Map<Seq<Seq<char>>, Seq<u8>>,
)
    ensures
        performed(first + then, files) == performed(then, performed(first, files)),
    decreases then.len(),
{
    if then.len() == 0 {
        assert(first + then =~= first);
    } else {
        performing_is_sequential(first, then.drop_last(), files);
        assert((first + then).drop_last() =~= first + then.drop_last());
        assert((first + then).last() == then.last());
    }
}

/// The steps put `contents` into the file `temporary`, which then takes the place of `target`.
/// Until that last step, nothing but `temporary` and directories is touched.
pub open spec fn is_replacement(
    steps: Seq<FileStep>,
    temporary: Seq<Seq<char>>,
    target: Seq<Seq<char>>,
    contents: Seq<u8>,
) -> bool {
    &&& steps.len() >= 2
    &&& steps.last().renames(temporary, target)
    &&& exists|w: int|
        0 <= w < steps.len() - 1 && (#[trigger] steps[w]).writes(temporary, contents)
    &&& forall|i: int|
        0 <= i < steps.len() - 1 ==> {
            ||| (#[trigger] steps[i]).writes(temporary, contents)
            ||| steps[i] is CreateDirectory
            ||| steps[i] is SyncFile
        }
}

proof fn lemma_before_the_rename(
    steps: Seq<FileStep>,
    temporary: Seq<Seq<char>>,
    target: Seq<Seq<char>>,
    contents: Seq<u8>,
    files: Map<Seq<Seq<char>>, Seq<u8>>,
    done: int,
)
    requires
        is_replacement(steps, temporary, target, contents),
        0 <= done < steps.len(),
    ensures
        ({
            let now = performed(steps.take(done), files);
            if exists|w: int| 0 <= w < done && (#[trigger] steps[w]).writes(temporary, contents) {
                now == files.insert(temporary, contents)
            } else {
                now == files
            }
        }),
    decreases done,
{
    if done > 0 {
        lemma_before_the_rename(steps, temporary, target, contents, files, done - 1);
        assert(steps.take(done).drop_last() == steps.take(done - 1));
        assert(steps.take(done).last() == steps[done - 1]);
        let now = performed(steps.take(done), files);
        if steps[done - 1].writes(temporary, contents) {
            assert(now =~= files.insert(temporary, contents));
        }
    }
}

/// A replacement is atomic: wherever it is cut short before its last step, every file but the
/// temporary one is what it was; once it is through, the target holds the new contents, the
/// temporary file is gone, and every other file is what it was.
pub proof fn replacement_is_atomic(
    steps: Seq<FileStep>,
    temporary: Seq<Seq<char>>,
    target: Seq<Seq<char>>,
    contents: Seq<u8>,
    files: Map<Seq<Seq<char>>, Seq<u8>>,
    done: int,
)
    requires
        is_replacement(steps, temporary, target, contents),
        temporary != target,
        0 <= done <= steps.len(),
    ensures
        done < steps.len() ==> performed(steps.take(done), files).remove(temporary)
            == files.remove(temporary),
        done == steps.len() ==> performed(steps.take(done), files) == files.remove(
            temporary,
        ).insert(target, contents),
{
    if done < steps.len() {
        lemma_before_the_rename(steps, temporary, target, contents, files, done);
        assert(performed(steps.take(done), files).remove(temporary) =~= files.remove(temporary));
    } else {
        lemma_before_the_rename(steps, temporary, target, contents, files, done - 1);
        assert(steps.take(done) == steps);
        assert(steps.drop_last() == steps.take(done - 1));
        assert(performed(steps, files) =~= files.remove(temporary).insert(target, contents));
    }
}

} // verus!
