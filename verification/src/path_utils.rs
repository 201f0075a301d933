//! Which arguments of a command are paths of files that exist.
//!
//! Expanding a path and looking whether there is a file are the caller's part: each function here says
//! what to do next, and is told how it went.
use crate::text::{clone_strings, opt_text, texts};
use vstd::prelude::*;
use vstd::string::*;

verus! {

/// `path` as it is seen from the working directory: an absolute path is itself, any other one is behind the
/// directory.
pub open spec fn absolute_path(working_directory: Seq<char>, path: Seq<char>) -> Seq<char> {
    if is_absolute(path) {
        path
    } else if working_directory.len() > 0 && working_directory.last() == '/' {
        working_directory + path
    } else {
        working_directory.push('/') + path
    }
}

/// The path is an absolute one.
pub open spec fn is_absolute(path: Seq<char>) -> bool {
    path.len() > 0 && path[0] == '/'
}

/// All of the paths are absolute ones.
pub open spec fn all_absolute(paths: Seq<Seq<char>>) -> bool {
    forall|i: int| 0 <= i < paths.len() ==> is_absolute(#[trigger] paths[i])
}

/// In an absolute working directory, every path becomes an absolute one.
pub proof fn absolute_paths_are_absolute(working_directory: Seq<char>, path: Seq<char>)
    requires
        is_absolute(working_directory),
    ensures
        is_absolute(absolute_path(working_directory, path)),
{
}

/// `path` as it is seen from the working directory.
pub fn make_absolute(working_directory: &str, path: &str) -> (absolute: String)
    ensures
        absolute@ == absolute_path(working_directory@, path@),
{
    if path.unicode_len() > 0 && path.get_char(0) == '/' {
        return path.to_owned();
    }
    let mut absolute = working_directory.to_owned();
    let len: usize = working_directory.unicode_len();
    if !(len > 0 && working_directory.get_char(len - 1) == '/') {
        absolute.push('/');
    }
    absolute.append(path);
    absolute
}

/// The elements of `list` that were found valid, in order.
pub open spec fn kept(list: Seq<String>, outcomes: Seq<Option<Seq<char>>>) -> Seq<String>
    decreases list.len(),
{
    if list.len() == 0 {
        Seq::empty()
    } else if outcomes[list.len() - 1] is Some {
        kept(list.drop_last(), outcomes).push(list.last())
    } else {
        kept(list.drop_last(), outcomes)
    }
}

/// The absolute paths among the outcomes, in order.
pub open spec fn absolute_paths(outcomes: Seq<Option<Seq<char>>>) -> Seq<Seq<char>>
    decreases outcomes.len(),
{
    if outcomes.len() == 0 {
        Seq::empty()
    } else {
        match outcomes.last() {
            Some(path) => absolute_paths(outcomes.drop_last()).push(path),
            None => absolute_paths(outcomes.drop_last()),
        }
    }
}

/// Only the outcomes for the elements themselves matter.
proof fn lemma_kept_by_own_outcomes(
    list: Seq<String>,
    a: Seq<Option<Seq<char>>>,
    b: Seq<Option<Seq<char>>>,
)
    requires
        forall|i: int| 0 <= i < list.len() ==> a[i] == b[i],
    ensures
        kept(list, a) == kept(list, b),
    decreases list.len(),
{
    if list.len() > 0 {
        lemma_kept_by_own_outcomes(list.drop_last(), a, b);
    }
}

/// The valid ones of a list of proposed paths.
#[derive(Debug, PartialEq, Eq)]
pub struct DetectedPaths {
    /// The paths as they were proposed.
    pub given: Vec<String>,
    /// The absolute path of the file that each of them refers to.
    pub absolute: Vec<String>,
}

/// A list of proposed paths, some of which were looked at.
pub struct PathDetection {
    working_directory: String,
    paths: Vec<String>,
    next: usize,
    expansion: Option<String>,
    found: DetectedPaths,
    outcomes: Ghost<Seq<Option<Seq<char>>>>,
}

/// What is to be done next to find out which of the proposed paths are valid.
pub enum DetectionStep {
    /// Perform variable and home directory expansion on `path`. Command substitutions make it fail,
    /// wildcards stay as they are. Continue with [`PathDetection::expanded`].
    Expand { run: PathDetection, path: String },
    /// See whether `path`, which is absolute if the working directory is, refers to a file. Continue with
    /// [`PathDetection::checked`].
    CheckValid { run: PathDetection, path: String },
    /// These of the proposed paths are valid.
    Done { paths: DetectedPaths, outcomes: Ghost<Seq<Option<Seq<char>>>> },
}

impl PathDetection {
    /// The directory that relative paths are seen from.
    pub closed spec fn working_directory(self) -> Seq<char> {
        self.working_directory@
    }

    /// The proposed paths.
    pub closed spec fn paths(self) -> Seq<String> {
        self.paths@
    }

    /// For each path that was looked at, the absolute path of its file, if it is valid.
    pub closed spec fn outcomes(self) -> Seq<Option<Seq<char>>> {
        self.outcomes@
    }

    /// The absolute form of the path at hand, once it was expanded.
    pub closed spec fn at_hand(self) -> Option<Seq<char>> {
        opt_text(self.expansion)
    }

    /// The path at hand is the next without an outcome, and what was found goes by the outcomes.
    pub closed spec fn wf(self) -> bool {
        &&& self.next < self.paths@.len()
        &&& self.outcomes@.len() == self.next
        &&& self.found.given@ == kept(self.paths@.take(self.next as int), self.outcomes@)
        &&& texts(self.found.absolute@) == absolute_paths(self.outcomes@)
        &&& is_absolute(self.working_directory@) ==> all_absolute(texts(self.found.absolute@)) && (
        self.expansion is Some ==> is_absolute(self.expansion->0@))
    }

    /// Goes on behind the path at hand, which is valid in the given absolute form, or is not.
    fn advance(self, valid: Option<String>) -> (step: DetectionStep)
        requires
            self.wf(),
            valid is Some && is_absolute(self.working_directory()) ==> is_absolute(valid->0@),
        ensures
            detection_goes_on(
                self.working_directory(),
                self.paths(),
                self.outcomes().push(opt_text(valid)),
                step,
            ),
    {
        let mut run = self;
        let ghost outcomes = run.outcomes@.push(opt_text(valid));
        proof {
            let upto = run.paths@.take(run.next + 1);
            assert(upto.drop_last() =~= run.paths@.take(run.next as int));
            lemma_kept_by_own_outcomes(upto.drop_last(), run.outcomes@, outcomes);
            assert(outcomes.drop_last() =~= run.outcomes@);
        }
        if let Some(absolute) = valid {
            let ghost before = run.found.absolute@;
            // Note we keep the original (unexpanded) path, and the absolute one beside it.
            run.found.given.push(run.paths[run.next].clone());
            run.found.absolute.push(absolute);
            assert(texts(run.found.absolute@) =~= texts(before).push(absolute@));
        }
        let len: usize = run.paths.len();
        run.next = run.next + 1;
        run.expansion = None;
        run.outcomes = Ghost(outcomes);
        if run.next < len {
            let path = run.paths[run.next].clone();
            DetectionStep::Expand { run, path }
        } else {
            assert(run.paths@.take(run.next as int) =~= run.paths@);
            DetectionStep::Done { paths: run.found, outcomes: Ghost(outcomes) }
        }
    }

    /// The path at hand was expanded, or could not be. What expands to nothing is not valid.
    pub fn expanded(self, expansion: Option<String>) -> (step: DetectionStep)
        requires
            self.wf(),
        ensures
            if expansion is Some && expansion->0@.len() > 0 {
                &&& step matches DetectionStep::CheckValid { run, path: absolute }
                &&& absolute@ == absolute_path(self.working_directory(), expansion->0@)
                &&& run.wf()
                &&& run.at_hand() == Some(absolute@)
                &&& run.working_directory() == self.working_directory()
                &&& run.paths() == self.paths()
                &&& run.outcomes() == self.outcomes()
            } else {
                detection_goes_on(
                    self.working_directory(),
                    self.paths(),
                    self.outcomes().push(None),
                    step,
                )
            },
    {
        match expansion {
            Some(path) => {
                if path.as_str().is_empty() {
                    return self.advance(None);
                }
                let mut run = self;
                let absolute = make_absolute(run.working_directory.as_str(), path.as_str());
                run.expansion = Some(absolute.clone());
                DetectionStep::CheckValid { run, path: absolute }
            },
            None => self.advance(None),
        }
    }

    /// The absolute form of the path at hand refers to a file, or does not.
    pub fn checked(self, valid: bool) -> (step: DetectionStep)
        requires
            self.wf(),
            self.at_hand() is Some,
        ensures
            detection_goes_on(
                self.working_directory(),
                self.paths(),
                self.outcomes().push(
                    if valid {
                        self.at_hand()
                    } else {
                        None
                    },
                ),
                step,
            ),
    {
        let mut run = self;
        let absolute = run.expansion;
        run.expansion = None;
        run.advance(
            if valid {
                absolute
            } else {
                None
            },
        )
    }
}

/// With these outcomes for the first paths, `step` is next: the next path is to be expanded, or, behind
/// the last one, the valid ones are the result, as they were proposed and in their absolute form.
pub open spec fn detection_goes_on(
    working_directory: Seq<char>,
    paths: Seq<String>,
    outcomes: Seq<Option<Seq<char>>>,
    step: DetectionStep,
) -> bool {
    if outcomes.len() < paths.len() {
        &&& step matches DetectionStep::Expand { run, path }
        &&& run.wf()
        &&& run.working_directory() == working_directory
        &&& run.paths() == paths
        &&& run.outcomes() == outcomes
        &&& path == paths[outcomes.len() as int]
    } else {
        &&& step matches DetectionStep::Done { paths: found, outcomes: o }
        &&& o@ == outcomes
        &&& found.given@ == kept(paths, outcomes)
        &&& texts(found.absolute@) == absolute_paths(outcomes)
        &&& is_absolute(working_directory) ==> all_absolute(absolute_paths(outcomes))
    }
}

/// Given a list of proposed paths, perform variable and home directory expansion,
/// and detect if the result expands to a value which is also the path to a file, as seen from the working
/// directory.
///
/// This is used for autosuggestion hinting. If we add an item to history, and one of its arguments
/// refers to a file, then we only want to suggest it if there is a valid file there.
pub fn expand_and_detect_paths(paths: Vec<String>, working_directory: String) -> (step: DetectionStep)
    ensures
        detection_goes_on(working_directory@, paths@, Seq::empty(), step),
{
    let found = DetectedPaths { given: Vec::new(), absolute: Vec::new() };
    assert(texts(found.absolute@) =~= absolute_paths(Seq::empty()));
    if paths.len() == 0 {
        return DetectionStep::Done { paths: found, outcomes: Ghost(Seq::empty()) };
    }
    let path = paths[0].clone();
    assert(paths@.take(0) =~= Seq::empty());
    DetectionStep::Expand {
        run: PathDetection {
            working_directory,
            paths,
            next: 0,
            expansion: None,
            found,
            outcomes: Ghost(Seq::empty()),
        },
        path,
    }
}

/// The detected paths are proposed ones, as they were proposed, and just those that are valid; to each
/// belongs an absolute one.
pub proof fn detected_paths_are_the_valid_ones(
    paths: Seq<String>,
    outcomes: Seq<Option<Seq<char>>>,
    path: String,
)
    requires
        outcomes.len() == paths.len(),
    ensures
        kept(paths, outcomes).contains(path) <==> exists|i: int|
            0 <= i < paths.len() && #[trigger] paths[i] == path && outcomes[i] is Some,
        kept(paths, outcomes).len() == absolute_paths(outcomes).len(),
    decreases paths.len(),
{
    if paths.len() > 0 {
        let less = paths.drop_last();
        let earlier = outcomes.drop_last();
        let last = paths.len() - 1;
        detected_paths_are_the_valid_ones(less, earlier, path);
        lemma_kept_by_own_outcomes(less, earlier, outcomes);
        let before = kept(less, outcomes);
        let now = kept(paths, outcomes);
        if before.contains(path) {
            let i = choose|i: int|
                0 <= i < less.len() && #[trigger] less[i] == path && earlier[i] is Some;
            assert(paths[i] == path && outcomes[i] is Some);
            let k = choose|k: int| 0 <= k < before.len() && before[k] == path;
            assert(now[k] == path);
        }
        if now.contains(path) {
            let k = choose|k: int| 0 <= k < now.len() && now[k] == path;
            if k < before.len() {
                assert(before[k] == path);
            } else {
                assert(paths[last] == path);
            }
        }
        if exists|i: int| 0 <= i < paths.len() && #[trigger] paths[i] == path && outcomes[i] is Some {
            let i = choose|i: int|
                0 <= i < paths.len() && #[trigger] paths[i] == path && outcomes[i] is Some;
            if i < last {
                assert(less[i] == path && earlier[i] is Some);
            } else {
                assert(now[before.len() as int] == path);
            }
        }
    }
}

/// A list of paths, the first of which were found valid.
pub struct PathValidation {
    paths: Vec<String>,
    next: usize,
    expands: bool,
}

/// What is to be done next to find out whether all paths are valid.
pub enum ValidationStep {
    /// See whether the user cancelled. Continue with [`PathValidation::cancel_checked`].
    CheckCancel { run: PathValidation },
    /// Expand `path`. Continue with [`PathValidation::expanded`].
    Expand { run: PathValidation, path: String },
    /// See whether `path` refers to a file. Continue with [`PathValidation::checked`].
    CheckValid { run: PathValidation, path: String },
    /// Whether all paths are valid.
    Done { valid: bool },
}

impl PathValidation {
    /// All paths.
    pub closed spec fn paths(self) -> Seq<String> {
        self.paths@
    }

    /// How many paths were found valid.
    pub closed spec fn passed(self) -> nat {
        self.next as nat
    }

    /// The paths are yet to be expanded.
    pub closed spec fn expands(self) -> bool {
        self.expands
    }

    /// There is a path at hand.
    pub open spec fn wf(self) -> bool {
        self.passed() < self.paths().len()
    }

    /// The user has cancelled, or has not.
    pub fn cancel_checked(self, cancelled: bool) -> (step: ValidationStep)
        requires
            self.wf(),
        ensures
            if cancelled {
                step == (ValidationStep::Done { valid: false })
            } else if self.expands() {
                step == (ValidationStep::Expand {
                    run: self,
                    path: self.paths()[self.passed() as int],
                })
            } else {
                step == (ValidationStep::CheckValid {
                    run: self,
                    path: self.paths()[self.passed() as int],
                })
            },
    {
        if cancelled {
            return ValidationStep::Done { valid: false };
        }
        let path = self.paths[self.next].clone();
        if self.expands {
            ValidationStep::Expand { run: self, path }
        } else {
            ValidationStep::CheckValid { run: self, path }
        }
    }

    /// The path at hand was expanded, or could not be.
    pub fn expanded(self, expansion: Option<String>) -> (step: ValidationStep)
        requires
            self.wf(),
        ensures
            step == match expansion {
                Some(path) => ValidationStep::CheckValid { run: self, path },
                None => ValidationStep::Done { valid: false },
            },
    {
        match expansion {
            Some(path) => ValidationStep::CheckValid { run: self, path },
            None => ValidationStep::Done { valid: false },
        }
    }

    /// The expansion of the path at hand refers to a file, or does not.
    pub fn checked(self, valid: bool) -> (step: ValidationStep)
        requires
            self.wf(),
        ensures
            if valid {
                validation_goes_on(self.paths(), self.expands(), self.passed() + 1, step)
            } else {
                step == (ValidationStep::Done { valid: false })
            },
    {
        if !valid {
            return ValidationStep::Done { valid: false };
        }
        let len: usize = self.paths.len();
        let run = PathValidation {
            paths: self.paths,
            next: self.next + 1,
            expands: self.expands,
        };
        if run.next < len {
            ValidationStep::CheckCancel { run }
        } else {
            ValidationStep::Done { valid: true }
        }
    }
}

/// With `passed` paths found valid, `step` is next: the next path is begun, or all are valid.
pub open spec fn validation_goes_on(
    paths: Seq<String>,
    expands: bool,
    passed: nat,
    step: ValidationStep,
) -> bool {
    if passed < paths.len() {
        &&& step matches ValidationStep::CheckCancel { run }
        &&& run.wf()
        &&& run.expands() == expands
        &&& run.paths() == paths
        &&& run.passed() == passed
    } else {
        step == (ValidationStep::Done { valid: true })
    }
}

/// Given a list of proposed paths, expand each one and see if it refers to a file.
/// The answer is `true` if `paths` is empty or every path is valid.
pub fn all_paths_are_valid(paths: &Vec<String>) -> (step: ValidationStep)
    ensures
        validation_goes_on(paths@, true, 0, step),
{
    begin_validation(paths, true)
}

/// Given the absolute paths that were noted for a command, see if each one refers to a file. They were
/// expanded before they were noted, and are checked as they are.
/// The answer is `true` if `paths` is empty or every path is valid.
pub fn all_noted_paths_are_valid(paths: &Vec<String>) -> (step: ValidationStep)
    ensures
        validation_goes_on(paths@, false, 0, step),
{
    begin_validation(paths, false)
}

fn begin_validation(paths: &Vec<String>, expands: bool) -> (step: ValidationStep)
    ensures
        validation_goes_on(paths@, expands, 0, step),
{
    if paths.len() == 0 {
        return ValidationStep::Done { valid: true };
    }
    ValidationStep::CheckCancel {
        run: PathValidation { paths: clone_strings(paths), next: 0, expands },
    }
}

/// An absolute path stays as it is. Any other is put behind the working directory, with one slash between them,
/// whether the directory is written with one at its end or without.
pub proof fn relative_paths_are_put_behind_the_directory(directory: Seq<char>, path: Seq<char>)
    ensures
        path.len() > 0 && path[0] == '/' ==> absolute_path(directory, path) == path,
        !(path.len() > 0 && path[0] == '/') && (directory.len() == 0 || directory.last() != '/')
            ==> absolute_path(directory, path) == directory + seq!['/'] + path && absolute_path(
            directory.push('/'),
            path,
        ) == directory + seq!['/'] + path,
{
    assert(directory.push('/') =~= directory + seq!['/']);
}

/// `places` are just those of the outcomes that are valid, in order.
pub open spec fn are_the_valid_places(
    outcomes: Seq<Option<Seq<char>>>,
    places: Seq<int>,
) -> bool {
    &&& forall|j: int, k: int|
        0 <= j < k < places.len() ==> #[trigger] places[j] < #[trigger] places[k]
    &&& forall|i: int| #[trigger]
        places.contains(i) <==> 0 <= i < outcomes.len() && outcomes[i] is Some
}

/// The detected paths are those at these places, as they were proposed, and in their absolute form.
pub open spec fn stand_at_places(
    paths: Seq<String>,
    outcomes: Seq<Option<Seq<char>>>,
    places: Seq<int>,
) -> bool {
    &&& kept(paths, outcomes).len() == places.len()
    &&& absolute_paths(outcomes).len() == places.len()
    &&& forall|k: int|
        0 <= k < places.len() ==> kept(paths, outcomes)[k] == paths[#[trigger] places[k]]
            && Some(absolute_paths(outcomes)[k]) == outcomes[places[k]]
}

/// The detected paths stand in the order in which they were proposed, each beside its own absolute form.
pub proof fn detected_paths_keep_their_order(paths: Seq<String>, outcomes: Seq<Option<Seq<char>>>)
    requires
        outcomes.len() == paths.len(),
    ensures
        exists|places: Seq<int>|
            are_the_valid_places(outcomes, places) && #[trigger] stand_at_places(
                paths,
                outcomes,
                places,
            ),
    decreases paths.len(),
{
    if paths.len() == 0 {
        let none = Seq::<int>::empty();
        assert(are_the_valid_places(outcomes, none));
        assert(stand_at_places(paths, outcomes, none));
    } else {
        let less = paths.drop_last();
        let earlier = outcomes.drop_last();
        let last = paths.len() - 1;
        detected_paths_keep_their_order(less, earlier);
        lemma_kept_by_own_outcomes(less, earlier, outcomes);
        let before = choose|places: Seq<int>|
            are_the_valid_places(earlier, places) && #[trigger] stand_at_places(
                less,
                earlier,
                places,
            );
        let places = if outcomes[last] is Some {
            before.push(last)
        } else {
            before
        };
        assert forall|k: int| 0 <= k < before.len() implies 0 <= #[trigger] before[k] < last by {
            assert(before.contains(before[k]));
        }
        assert forall|i: int| #[trigger] places.contains(i) <==> 0 <= i < outcomes.len()
            && outcomes[i] is Some by {
            assert(before.contains(i) <==> 0 <= i < earlier.len() && earlier[i] is Some);
            if before.contains(i) {
                let k = choose|k: int| 0 <= k < before.len() && before[k] == i;
                assert(places[k] == i);
            }
            if places.contains(i) && i != last {
                let k = choose|k: int| 0 <= k < places.len() && places[k] == i;
                assert(before[k] == i);
            }
            if outcomes[last] is Some {
                assert(places[before.len() as int] == last);
            } else if places.contains(last) {
                let k = choose|k: int| 0 <= k < places.len() && places[k] == last;
                assert(before[k] < last);
            }
        }
        assert forall|k: int| 0 <= k < places.len() implies kept(paths, outcomes)[k]
            == paths[#[trigger] places[k]] && Some(absolute_paths(outcomes)[k])
            == outcomes[places[k]] by {
            if k < before.len() {
                assert(places[k] == before[k]);
                assert(kept(less, earlier)[k] == less[before[k]]);
            }
        }
        assert(stand_at_places(paths, outcomes, places));
        assert(are_the_valid_places(outcomes, places));
    }
}

/// Detection looks at one path after the other, and is done just when it has an outcome for each of them.
pub proof fn detection_looks_at_every_path(
    working_directory: Seq<char>,
    paths: Seq<String>,
    outcomes: Seq<Option<Seq<char>>>,
    step: DetectionStep,
)
    requires
        detection_goes_on(working_directory, paths, outcomes, step),
        outcomes.len() <= paths.len(),
    ensures
        step is Done <==> outcomes.len() == paths.len(),
        !(step is Done) ==> step is Expand && step->Expand_path == paths[outcomes.len() as int]
            && step->Expand_run.outcomes() == outcomes && step->Expand_run.paths() == paths
            && step->Expand_run.working_directory() == working_directory,
{
}

/// Validation begins one path after the other, and finds all valid just when it is behind the last of them.
pub proof fn validation_passes_every_path(
    paths: Seq<String>,
    expands: bool,
    passed: nat,
    step: ValidationStep,
)
    requires
        validation_goes_on(paths, expands, passed, step),
        passed <= paths.len(),
    ensures
        step is Done <==> passed == paths.len(),
        step is Done ==> step->valid,
        !(step is Done) ==> step is CheckCancel && step->CheckCancel_run.passed() == passed
            && step->CheckCancel_run.paths() == paths && step->CheckCancel_run.expands() == expands,
{
}

/// In an absolute working directory, everything that is detected begins with a slash; and there are as many paths in
/// either form.
pub proof fn detected_paths_begin_with_a_slash(
    working_directory: Seq<char>,
    paths: Seq<String>,
    outcomes: Seq<Option<Seq<char>>>,
    step: DetectionStep,
    k: int,
)
    requires
        working_directory.len() > 0,
        working_directory[0] == '/',
        outcomes.len() == paths.len(),
        detection_goes_on(working_directory, paths, outcomes, step),
    ensures
        step is Done,
        step->Done_paths.given@.len() == step->Done_paths.absolute@.len(),
        0 <= k < step->Done_paths.absolute@.len() ==> step->Done_paths.absolute@[k]@.len() > 0
            && step->Done_paths.absolute@[k]@[0] == '/',
{
    let found = step->Done_paths;
    detected_paths_keep_their_order(paths, outcomes);
    assert(texts(found.absolute@).len() == found.absolute@.len());
    if 0 <= k < found.absolute@.len() {
        assert(texts(found.absolute@)[k] == found.absolute@[k]@);
        assert(is_absolute(absolute_paths(outcomes)[k]));
    }
}

} // verus!
