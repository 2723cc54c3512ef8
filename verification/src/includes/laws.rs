//! What holds of loading, whatever is on the disk.

use vstd::prelude::*;

use crate::config;
use crate::includes;
use crate::includes::{
    Disk, Loaded, QuestionView, Search, SourceOutcomeView, MAX_INCLUDE_DEPTH,
};
use crate::path;
use crate::validate;

verus! {

/// Everything that one disk answers, the other answers in the same way.
pub open spec fn agrees(known: Disk, disk: Disk) -> bool {
    &&& known.identities.submap_of(disk.identities)
    &&& known.sources.submap_of(disk.sources)
    &&& known.files.submap_of(disk.files)
    &&& known.dirs.submap_of(disk.dirs)
}

proof fn lemma_search_settled(
    candidates: Seq<Seq<char>>,
    known: Map<Seq<char>, bool>,
    files: Map<Seq<char>, bool>,
)
    requires
        known.submap_of(files),
        !(includes::first_file(candidates, known) is Unknown),
    ensures
        includes::first_file(candidates, files) == includes::first_file(candidates, known),
    decreases candidates.len(),
{
    if candidates.len() > 0 {
        assert(known.contains_key(candidates[0]));
        assert(known.dom().contains(candidates[0]));
        if !known[candidates[0]] {
            lemma_search_settled(candidates.skip(1), known, files);
        }
    }
}

proof fn lemma_file_settled(
    known: Disk,
    disk: Disk,
    variables: Seq<(Seq<char>, Seq<char>)>,
    path: Seq<char>,
    base: Seq<char>,
    room: nat,
    ancestors: Seq<Seq<char>>,
)
    requires
        agrees(known, disk),
        includes::load_file(known, variables, path, base, room, ancestors).missing is None,
    ensures
        includes::load_file(disk, variables, path, base, room, ancestors) == includes::load_file(
            known,
            variables,
            path,
            base,
            room,
            ancestors,
        ),
    decreases room, 0nat, 0int,
{
    if room > 0 {
        assert(known.identities.dom().contains(path));
        if !path::holds(ancestors, known.identities[path]) {
            assert(known.sources.dom().contains(path));
            if let SourceOutcomeView::Parsed(entries) = known.sources[path] {
                lemma_entries_settled(
                    known,
                    disk,
                    variables,
                    path,
                    base,
                    (room - 1) as nat,
                    ancestors.push(known.identities[path]),
                    entries,
                    entries.len() as int,
                );
            }
        }
    }
}

proof fn lemma_entries_settled(
    known: Disk,
    disk: Disk,
    variables: Seq<(Seq<char>, Seq<char>)>,
    path: Seq<char>,
    base: Seq<char>,
    room: nat,
    ancestors: Seq<Seq<char>>,
    entries: Seq<config::WorkspaceEntryView>,
    n: int,
)
    requires
        agrees(known, disk),
        includes::load_entries(
            known,
            variables,
            path,
            base,
            room,
            ancestors,
            entries,
            n,
        ).missing is None,
    ensures
        includes::load_entries(disk, variables, path, base, room, ancestors, entries, n)
            == includes::load_entries(
            known,
            variables,
            path,
            base,
            room,
            ancestors,
            entries,
            n,
        ),
    decreases room, 2nat, n,
{
    if n > 0 {
        lemma_entries_settled(
            known,
            disk,
            variables,
            path,
            base,
            room,
            ancestors,
            entries,
            n - 1,
        );
        lemma_entry_settled(
            known,
            disk,
            variables,
            path,
            base,
            room,
            ancestors,
            entries[n - 1],
        );
    }
}

proof fn lemma_entry_settled(
    known: Disk,
    disk: Disk,
    variables: Seq<(Seq<char>, Seq<char>)>,
    path: Seq<char>,
    base: Seq<char>,
    room: nat,
    ancestors: Seq<Seq<char>>,
    entry: config::WorkspaceEntryView,
)
    requires
        agrees(known, disk),
        includes::load_entry(known, variables, path, base, room, ancestors, entry).missing is None,
    ensures
        includes::load_entry(disk, variables, path, base, room, ancestors, entry)
            == includes::load_entry(
            known,
            variables,
            path,
            base,
            room,
            ancestors,
            entry,
        ),
    decreases room, 1nat, 0int,
{
    if let config::WorkspaceEntryView::Include(inc) = entry {
        let here = includes::dir_of(path, base);
        let candidates = includes::target_candidates(inc.target, here, variables);
        lemma_search_settled(candidates, known.files, disk.files);
        match includes::first_file(candidates, known.files) {
            Search::Found(target) => lemma_file_settled(
                known,
                disk,
                variables,
                target,
                includes::dir_of(target, here),
                room,
                ancestors,
            ),
            Search::Nothing => {
                if !inc.optional {
                    assert(known.dirs.dom().contains(candidates[0]));
                }
            },
            Search::Unknown(_) => {},
        }
    }
}

/// Once loading asks no question, its result stands: whatever else a disk
/// holds that gives the same answers, loading comes to the same.
pub proof fn law_answers_settle_the_result(
    known: Disk,
    disk: Disk,
    variables: Seq<(Seq<char>, Seq<char>)>,
    path: Seq<char>,
    base: Seq<char>,
)
    requires
        agrees(known, disk),
        includes::load_all(known, variables, path, base).missing is None,
    ensures
        includes::load_all(disk, variables, path, base) == includes::load_all(
            known,
            variables,
            path,
            base,
        ),
{
    lemma_file_settled(
        known,
        disk,
        variables,
        path,
        base,
        (MAX_INCLUDE_DEPTH + 1) as nat,
        Seq::empty(),
    );
}

proof fn lemma_search_asks_new(candidates: Seq<Seq<char>>, files: Map<Seq<char>, bool>)
    ensures
        includes::first_file(candidates, files) matches Search::Unknown(path)
            ==> !files.contains_key(path),
    decreases candidates.len(),
{
    if candidates.len() > 0 {
        lemma_search_asks_new(candidates.skip(1), files);
    }
}

proof fn lemma_file_asks_new(
    disk: Disk,
    variables: Seq<(Seq<char>, Seq<char>)>,
    path: Seq<char>,
    base: Seq<char>,
    room: nat,
    ancestors: Seq<Seq<char>>,
)
    ensures
        includes::load_file(disk, variables, path, base, room, ancestors).missing matches Some(
            question,
        ) ==> !includes::answered(disk, question),
    decreases room, 0nat, 0int,
{
    if room > 0 && disk.sources.contains_key(path) {
        if let SourceOutcomeView::Parsed(entries) = disk.sources[path] {
            lemma_entries_ask_new(
                disk,
                variables,
                path,
                base,
                (room - 1) as nat,
                ancestors.push(disk.identities[path]),
                entries,
                entries.len() as int,
            );
        }
    }
}

proof fn lemma_entries_ask_new(
    disk: Disk,
    variables: Seq<(Seq<char>, Seq<char>)>,
    path: Seq<char>,
    base: Seq<char>,
    room: nat,
    ancestors: Seq<Seq<char>>,
    entries: Seq<config::WorkspaceEntryView>,
    n: int,
)
    ensures
        includes::load_entries(
            disk,
            variables,
            path,
            base,
            room,
            ancestors,
            entries,
            n,
        ).missing matches Some(question) ==> !includes::answered(disk, question),
    decreases room, 2nat, n,
{
    if n > 0 {
        lemma_entries_ask_new(disk, variables, path, base, room, ancestors, entries, n - 1);
        lemma_entry_asks_new(disk, variables, path, base, room, ancestors, entries[n - 1]);
    }
}

proof fn lemma_entry_asks_new(
    disk: Disk,
    variables: Seq<(Seq<char>, Seq<char>)>,
    path: Seq<char>,
    base: Seq<char>,
    room: nat,
    ancestors: Seq<Seq<char>>,
    entry: config::WorkspaceEntryView,
)
    ensures
        includes::load_entry(disk, variables, path, base, room, ancestors, entry).missing matches Some(
            question,
        ) ==> !includes::answered(disk, question),
    decreases room, 1nat, 0int,
{
    if let config::WorkspaceEntryView::Include(inc) = entry {
        let here = includes::dir_of(path, base);
        let candidates = includes::target_candidates(inc.target, here, variables);
        lemma_search_asks_new(candidates, disk.files);
        if let Search::Found(target) = includes::first_file(candidates, disk.files) {
            lemma_file_asks_new(
                disk,
                variables,
                target,
                includes::dir_of(target, here),
                room,
                ancestors,
            );
        }
    }
}

/// Loading never asks what it was told already, so every answer brings it
/// further.
pub proof fn law_questions_are_new(
    disk: Disk,
    variables: Seq<(Seq<char>, Seq<char>)>,
    path: Seq<char>,
    base: Seq<char>,
)
    ensures
        includes::load_all(disk, variables, path, base).missing matches Some(question)
            ==> !includes::answered(disk, question),
{
    lemma_file_asks_new(
        disk,
        variables,
        path,
        base,
        (MAX_INCLUDE_DEPTH + 1) as nat,
        Seq::empty(),
    );
}

/// A disk that has an answer to every question leaves none open.
pub proof fn law_complete_disks_leave_no_question(
    disk: Disk,
    variables: Seq<(Seq<char>, Seq<char>)>,
    path: Seq<char>,
    base: Seq<char>,
)
    requires
        forall|question: QuestionView| #[trigger] includes::answered(disk, question),
    ensures
        includes::load_all(disk, variables, path, base).missing is None,
{
    law_questions_are_new(disk, variables, path, base);
}

/// The questions that a search for the first file goes through.
pub open spec fn search_questions(
    candidates: Seq<Seq<char>>,
    files: Map<Seq<char>, bool>,
) -> Seq<QuestionView>
    decreases candidates.len(),
{
    if candidates.len() == 0 {
        Seq::empty()
    } else if files[candidates[0]] {
        seq![QuestionView::IsFile(candidates[0])]
    } else {
        seq![QuestionView::IsFile(candidates[0])] + search_questions(candidates.skip(1), files)
    }
}

/// The questions that loading a file goes through, on a disk that leaves none
/// of them open.
pub open spec fn file_questions(
    disk: Disk,
    variables: Seq<(Seq<char>, Seq<char>)>,
    path: Seq<char>,
    base: Seq<char>,
    room: nat,
    ancestors: Seq<Seq<char>>,
) -> Seq<QuestionView>
    decreases room, 0nat, 0int,
{
    if room == 0 {
        Seq::empty()
    } else if path::holds(ancestors, disk.identities[path]) {
        seq![QuestionView::Identity(path)]
    } else {
        seq![QuestionView::Identity(path), QuestionView::Source(path)] + match disk.sources[path] {
            SourceOutcomeView::Parsed(entries) => entries_questions(
                disk,
                variables,
                path,
                base,
                (room - 1) as nat,
                ancestors.push(disk.identities[path]),
                entries,
                entries.len() as int,
            ),
            _ => Seq::empty(),
        }
    }
}

/// The questions that the first `n` entries of a file lead to.
pub open spec fn entries_questions(
    disk: Disk,
    variables: Seq<(Seq<char>, Seq<char>)>,
    path: Seq<char>,
    base: Seq<char>,
    room: nat,
    ancestors: Seq<Seq<char>>,
    entries: Seq<config::WorkspaceEntryView>,
    n: int,
) -> Seq<QuestionView>
    decreases room, 2nat, n,
{
    if n <= 0 {
        Seq::empty()
    } else {
        entries_questions(disk, variables, path, base, room, ancestors, entries, n - 1)
            + entry_questions(disk, variables, path, base, room, ancestors, entries[n - 1])
    }
}

/// The questions that one entry of a file leads to.
pub open spec fn entry_questions(
    disk: Disk,
    variables: Seq<(Seq<char>, Seq<char>)>,
    path: Seq<char>,
    base: Seq<char>,
    room: nat,
    ancestors: Seq<Seq<char>>,
    entry: config::WorkspaceEntryView,
) -> Seq<QuestionView>
    decreases room, 1nat, 0int,
{
    let here = includes::dir_of(path, base);
    match entry {
        config::WorkspaceEntryView::Inline(_) => Seq::empty(),
        config::WorkspaceEntryView::Include(inc) => {
            let candidates = includes::target_candidates(inc.target, here, variables);
            search_questions(candidates, disk.files) + match includes::first_file(
                candidates,
                disk.files,
            ) {
                Search::Found(target) => file_questions(
                    disk,
                    variables,
                    target,
                    includes::dir_of(target, here),
                    room,
                    ancestors,
                ),
                Search::Nothing => if inc.optional {
                    Seq::empty()
                } else {
                    seq![QuestionView::IsDir(candidates[0])]
                },
                Search::Unknown(_) => Seq::empty(),
            }
        },
    }
}

/// The questions that loading a layout goes through, on a disk that leaves none
/// of them open.
pub open spec fn all_questions(
    disk: Disk,
    variables: Seq<(Seq<char>, Seq<char>)>,
    path: Seq<char>,
    base: Seq<char>,
) -> Seq<QuestionView> {
    file_questions(disk, variables, path, base, (MAX_INCLUDE_DEPTH + 1) as nat, Seq::empty())
}

proof fn lemma_in_either<A>(a: Seq<A>, b: Seq<A>, x: A)
    requires
        a.contains(x) || b.contains(x),
    ensures
        (a + b).contains(x),
{
    if a.contains(x) {
        let i = choose|i: int| 0 <= i < a.len() && a[i] == x;
        assert((a + b)[i] == x);
    } else {
        let i = choose|i: int| 0 <= i < b.len() && b[i] == x;
        assert((a + b)[a.len() + i] == x);
    }
}

/// What a search asks is answered by any disk on which the search ends, and is
/// among the questions it goes through there.
proof fn lemma_search_question(
    candidates: Seq<Seq<char>>,
    known: Map<Seq<char>, bool>,
    files: Map<Seq<char>, bool>,
    asked: Seq<char>,
)
    requires
        known.submap_of(files),
        !(includes::first_file(candidates, files) is Unknown),
        includes::first_file(candidates, known) == Search::Unknown(asked),
    ensures
        files.contains_key(asked),
        search_questions(candidates, files).contains(QuestionView::IsFile(asked)),
    decreases candidates.len(),
{
    let first = seq![QuestionView::IsFile(candidates[0])];
    let others = search_questions(candidates.skip(1), files);
    if !known.contains_key(candidates[0]) {
        assert(first[0] == QuestionView::IsFile(asked));
        assert(first.contains(QuestionView::IsFile(asked)));
    } else {
        assert(known.dom().contains(candidates[0]));
        assert(files[candidates[0]] == known[candidates[0]]);
        lemma_search_question(candidates.skip(1), known, files, asked);
    }
    if !files[candidates[0]] {
        lemma_in_either(first, others, QuestionView::IsFile(asked));
    }
}

proof fn lemma_file_question(
    known: Disk,
    disk: Disk,
    variables: Seq<(Seq<char>, Seq<char>)>,
    path: Seq<char>,
    base: Seq<char>,
    room: nat,
    ancestors: Seq<Seq<char>>,
    asked: QuestionView,
)
    requires
        agrees(known, disk),
        includes::load_file(disk, variables, path, base, room, ancestors).missing is None,
        includes::load_file(known, variables, path, base, room, ancestors).missing == Some(asked),
    ensures
        includes::answered(disk, asked),
        file_questions(disk, variables, path, base, room, ancestors).contains(asked),
    decreases room, 0nat, 0int,
{
    let all = file_questions(disk, variables, path, base, room, ancestors);
    assert(all[0] == QuestionView::Identity(path));
    if known.identities.contains_key(path) {
        assert(known.identities.dom().contains(path));
        let both = seq![QuestionView::Identity(path), QuestionView::Source(path)];
        assert(all[1] == QuestionView::Source(path));
        if known.sources.contains_key(path) {
            assert(known.sources.dom().contains(path));
            if let SourceOutcomeView::Parsed(entries) = known.sources[path] {
                let deeper = ancestors.push(disk.identities[path]);
                let n = entries.len() as int;
                let left = (room - 1) as nat;
                lemma_entries_question(
                    known,
                    disk,
                    variables,
                    path,
                    base,
                    left,
                    deeper,
                    entries,
                    n,
                    asked,
                );
                lemma_in_either(
                    both,
                    entries_questions(disk, variables, path, base, left, deeper, entries, n),
                    asked,
                );
            }
        }
    }
}

proof fn lemma_entries_question(
    known: Disk,
    disk: Disk,
    variables: Seq<(Seq<char>, Seq<char>)>,
    path: Seq<char>,
    base: Seq<char>,
    room: nat,
    ancestors: Seq<Seq<char>>,
    entries: Seq<config::WorkspaceEntryView>,
    n: int,
    asked: QuestionView,
)
    requires
        agrees(known, disk),
        includes::load_entries(
            disk,
            variables,
            path,
            base,
            room,
            ancestors,
            entries,
            n,
        ).missing is None,
        includes::load_entries(
            known,
            variables,
            path,
            base,
            room,
            ancestors,
            entries,
            n,
        ).missing == Some(asked),
    ensures
        includes::answered(disk, asked),
        entries_questions(
            disk,
            variables,
            path,
            base,
            room,
            ancestors,
            entries,
            n,
        ).contains(asked),
    decreases room, 2nat, n,
{
    if n > 0 {
        let earlier = includes::load_entries(
            known,
            variables,
            path,
            base,
            room,
            ancestors,
            entries,
            n - 1,
        );
        if earlier.missing is Some {
            lemma_entries_question(
                known,
                disk,
                variables,
                path,
                base,
                room,
                ancestors,
                entries,
                n - 1,
                asked,
            );
        } else {
            lemma_entry_question(
                known,
                disk,
                variables,
                path,
                base,
                room,
                ancestors,
                entries[n - 1],
                asked,
            );
        }
        lemma_in_either(
            entries_questions(disk, variables, path, base, room, ancestors, entries, n - 1),
            entry_questions(disk, variables, path, base, room, ancestors, entries[n - 1]),
            asked,
        );
    }
}

proof fn lemma_entry_question(
    known: Disk,
    disk: Disk,
    variables: Seq<(Seq<char>, Seq<char>)>,
    path: Seq<char>,
    base: Seq<char>,
    room: nat,
    ancestors: Seq<Seq<char>>,
    entry: config::WorkspaceEntryView,
    asked: QuestionView,
)
    requires
        agrees(known, disk),
        includes::load_entry(disk, variables, path, base, room, ancestors, entry).missing is None,
        includes::load_entry(known, variables, path, base, room, ancestors, entry).missing == Some(
            asked,
        ),
    ensures
        includes::answered(disk, asked),
        entry_questions(disk, variables, path, base, room, ancestors, entry).contains(asked),
    decreases room, 1nat, 0int,
{
    if let config::WorkspaceEntryView::Include(inc) = entry {
        let here = includes::dir_of(path, base);
        let candidates = includes::target_candidates(inc.target, here, variables);
        let searched = search_questions(candidates, disk.files);
        if let Search::Unknown(candidate) = includes::first_file(candidates, known.files) {
            lemma_search_question(candidates, known.files, disk.files, candidate);
        } else {
            lemma_search_settled(candidates, known.files, disk.files);
        }
        match includes::first_file(candidates, disk.files) {
            Search::Found(target) => {
                let target_base = includes::dir_of(target, here);
                if !(includes::first_file(candidates, known.files) is Unknown) {
                    lemma_file_question(
                        known,
                        disk,
                        variables,
                        target,
                        target_base,
                        room,
                        ancestors,
                        asked,
                    );
                }
                lemma_in_either(
                    searched,
                    file_questions(disk, variables, target, target_base, room, ancestors),
                    asked,
                );
            },
            Search::Nothing => {
                let last: Seq<QuestionView> = if inc.optional {
                    Seq::empty()
                } else {
                    seq![QuestionView::IsDir(candidates[0])]
                };
                if !(includes::first_file(candidates, known.files) is Unknown) {
                    assert(last[0] == asked);
                }
                lemma_in_either(searched, last, asked);
            },
            Search::Unknown(_) => {},
        }
    }
}

/// What is known once the disk has answered a question.
pub open spec fn told(known: Disk, disk: Disk, question: QuestionView) -> Disk {
    match question {
        QuestionView::Identity(path) => Disk {
            identities: known.identities.insert(path, disk.identities[path]),
            ..known
        },
        QuestionView::Source(path) => Disk {
            sources: known.sources.insert(path, disk.sources[path]),
            ..known
        },
        QuestionView::IsFile(path) => Disk {
            files: known.files.insert(path, disk.files[path]),
            ..known
        },
        QuestionView::IsDir(path) => Disk {
            dirs: known.dirs.insert(path, disk.dirs[path]),
            ..known
        },
    }
}

/// What is known after `k` answers is what was known before, and the answer to
/// the question that it left open.
pub open spec fn told_next(
    disk: Disk,
    variables: Seq<(Seq<char>, Seq<char>)>,
    path: Seq<char>,
    base: Seq<char>,
    states: Seq<Disk>,
    k: int,
) -> bool {
    match includes::load_all(states[k - 1], variables, path, base).missing {
        Some(question) => states[k] == told(states[k - 1], disk, question),
        None => false,
    }
}

/// What is known on the way, when loading is told by the disk whatever it asks:
/// something that the disk agrees with at the start, and one answer more each
/// time.
pub open spec fn is_exchange(
    disk: Disk,
    variables: Seq<(Seq<char>, Seq<char>)>,
    path: Seq<char>,
    base: Seq<char>,
    states: Seq<Disk>,
) -> bool {
    &&& states.len() > 0
    &&& agrees(states[0], disk)
    &&& forall|k: int|
        0 < k < states.len() ==> #[trigger] told_next(disk, variables, path, base, states, k)
}

proof fn lemma_one_more<K, V>(a: Map<K, V>, b: Map<K, V>, key: K)
    requires
        a.submap_of(b),
        b.contains_key(key),
    ensures
        a.insert(key, b[key]).submap_of(b),
{
    let more = a.insert(key, b[key]);
    assert forall|k: K| #[trigger] more.dom().contains(k) implies b.dom().contains(k) && more[k]
        == b[k] by {
        if k != key {
            assert(a.dom().contains(k));
        }
    }
}

proof fn lemma_told_agrees(known: Disk, disk: Disk, question: QuestionView)
    requires
        agrees(known, disk),
        includes::answered(disk, question),
    ensures
        agrees(told(known, disk, question), disk),
{
    match question {
        QuestionView::Identity(path) => lemma_one_more(known.identities, disk.identities, path),
        QuestionView::Source(path) => lemma_one_more(known.sources, disk.sources, path),
        QuestionView::IsFile(path) => lemma_one_more(known.files, disk.files, path),
        QuestionView::IsDir(path) => lemma_one_more(known.dirs, disk.dirs, path),
    }
}

/// The questions that are still open.
spec fn open_questions(questions: Seq<QuestionView>, known: Disk) -> Set<QuestionView> {
    questions.to_set().filter(|question: QuestionView| !includes::answered(known, question))
}

proof fn lemma_exchange(
    disk: Disk,
    variables: Seq<(Seq<char>, Seq<char>)>,
    path: Seq<char>,
    base: Seq<char>,
    states: Seq<Disk>,
    k: int,
)
    requires
        includes::load_all(disk, variables, path, base).missing is None,
        is_exchange(disk, variables, path, base, states),
        0 <= k < states.len(),
    ensures
        agrees(states[k], disk),
        open_questions(all_questions(disk, variables, path, base), states[k]).finite(),
        open_questions(all_questions(disk, variables, path, base), states[k]).len() + k
            <= all_questions(disk, variables, path, base).len(),
    decreases k,
{
    broadcast use vstd::seq_lib::seq_to_set_is_finite;

    let questions = all_questions(disk, variables, path, base);
    let left = open_questions(questions, states[k]);
    if k == 0 {
        questions.lemma_cardinality_of_set();
        vstd::set_lib::lemma_len_subset(left, questions.to_set());
    } else {
        lemma_exchange(disk, variables, path, base, states, k - 1);
        let earlier = states[k - 1];
        let before = open_questions(questions, earlier);
        assert(told_next(disk, variables, path, base, states, k));
        let asked = includes::load_all(earlier, variables, path, base).missing->0;
        lemma_file_question(
            earlier,
            disk,
            variables,
            path,
            base,
            (MAX_INCLUDE_DEPTH + 1) as nat,
            Seq::empty(),
            asked,
        );
        law_questions_are_new(earlier, variables, path, base);
        lemma_told_agrees(earlier, disk, asked);
        assert(before.contains(asked));
        assert(left.subset_of(before.remove(asked)));
        vstd::set_lib::lemma_len_subset(left, before.remove(asked));
    }
}

/// Asking ends. Told whatever it asks by a disk that leaves nothing open,
/// loading asks at most as many questions as loading that disk in full goes
/// through. As long as it asks, the question is one of those, the disk has the
/// answer, and fewer were answered than there are. Once it asks no more, it has
/// come to what the whole disk comes to.
pub proof fn law_asking_ends(
    disk: Disk,
    variables: Seq<(Seq<char>, Seq<char>)>,
    path: Seq<char>,
    base: Seq<char>,
    states: Seq<Disk>,
)
    requires
        includes::load_all(disk, variables, path, base).missing is None,
        is_exchange(disk, variables, path, base, states),
    ensures
        ({
            let questions = all_questions(disk, variables, path, base);
            let loaded = includes::load_all(states.last(), variables, path, base);
            &&& states.len() - 1 <= questions.len()
            &&& match loaded.missing {
                Some(question) => {
                    &&& questions.contains(question)
                    &&& includes::answered(disk, question)
                    &&& states.len() - 1 < questions.len()
                },
                None => loaded == includes::load_all(disk, variables, path, base),
            }
        }),
{
    let questions = all_questions(disk, variables, path, base);
    let n = states.len() - 1;
    let known = states.last();
    lemma_exchange(disk, variables, path, base, states, n);
    match includes::load_all(known, variables, path, base).missing {
        Some(asked) => {
            lemma_file_question(
                known,
                disk,
                variables,
                path,
                base,
                (MAX_INCLUDE_DEPTH + 1) as nat,
                Seq::empty(),
                asked,
            );
            law_questions_are_new(known, variables, path, base);
            let left = open_questions(questions, known);
            assert(left.contains(asked));
            assert(left.remove(asked).len() == left.len() - 1);
        },
        None => law_answers_settle_the_result(known, disk, variables, path, base),
    }
}

/// The entries of a layout that includes nothing.
pub open spec fn inline_entries(file: Seq<config::WorkspaceView>) -> Seq<
    config::WorkspaceEntryView,
> {
    file.map_values(|ws: config::WorkspaceView| config::WorkspaceEntryView::Inline(ws))
}

proof fn lemma_inline_entries(
    disk: Disk,
    variables: Seq<(Seq<char>, Seq<char>)>,
    path: Seq<char>,
    base: Seq<char>,
    room: nat,
    ancestors: Seq<Seq<char>>,
    file: Seq<config::WorkspaceView>,
    n: int,
)
    requires
        0 <= n <= file.len(),
    ensures
        includes::load_entries(
            disk,
            variables,
            path,
            base,
            room,
            ancestors,
            inline_entries(file),
            n,
        ) == (Loaded {
            workspaces: config::resolved_file(file, variables, base).take(n),
            findings: Seq::empty(),
            missing: None,
        }),
    decreases n,
{
    let resolved = config::resolved_file(file, variables, base);
    if n > 0 {
        lemma_inline_entries(disk, variables, path, base, room, ancestors, file, n - 1);
        let entry = inline_entries(file)[n - 1];
        let added = includes::load_entry(disk, variables, path, base, room, ancestors, entry);
        assert(added.workspaces == seq![resolved[n - 1]]);
        assert(resolved.take(n) =~= resolved.take(n - 1) + seq![resolved[n - 1]]);
        assert(Seq::<validate::FindingView>::empty() + Seq::<validate::FindingView>::empty()
            =~= Seq::<validate::FindingView>::empty());
    } else {
        assert(resolved.take(0) =~= Seq::<config::WorkspaceView>::empty());
    }
}

/// A layout file that includes nothing loads as itself, its paths resolved
/// against the directory that was asked for.
pub proof fn law_plain_layouts_load_as_themselves(
    disk: Disk,
    variables: Seq<(Seq<char>, Seq<char>)>,
    path: Seq<char>,
    base: Seq<char>,
    file: Seq<config::WorkspaceView>,
)
    requires
        disk.identities.contains_key(path),
        disk.sources.contains_key(path),
        disk.sources[path] == SourceOutcomeView::Parsed(inline_entries(file)),
    ensures
        includes::load_all(disk, variables, path, base) == (Loaded {
            workspaces: config::resolved_file(file, variables, base),
            findings: Seq::empty(),
            missing: None,
        }),
{
    let resolved = config::resolved_file(file, variables, base);
    lemma_inline_entries(
        disk,
        variables,
        path,
        base,
        MAX_INCLUDE_DEPTH as nat,
        Seq::empty().push(disk.identities[path]),
        file,
        file.len() as int,
    );
    assert(resolved.take(file.len() as int) =~= resolved);
}

/// One after the other is the same however it is grouped.
proof fn lemma_followed_groups(a: Loaded, b: Loaded, c: Loaded)
    ensures
        includes::followed(includes::followed(a, b), c) == includes::followed(
            a,
            includes::followed(b, c),
        ),
{
    assert(includes::followed(includes::followed(a, b), c) =~= includes::followed(
        a,
        includes::followed(b, c),
    ));
}

proof fn lemma_first_entries(
    disk: Disk,
    variables: Seq<(Seq<char>, Seq<char>)>,
    path: Seq<char>,
    base: Seq<char>,
    room: nat,
    ancestors: Seq<Seq<char>>,
    a: Seq<config::WorkspaceEntryView>,
    b: Seq<config::WorkspaceEntryView>,
    n: int,
)
    requires
        n <= a.len(),
    ensures
        includes::load_entries(disk, variables, path, base, room, ancestors, a + b, n)
            == includes::load_entries(
            disk,
            variables,
            path,
            base,
            room,
            ancestors,
            a,
            n,
        ),
    decreases n,
{
    if n > 0 {
        lemma_first_entries(disk, variables, path, base, room, ancestors, a, b, n - 1);
        assert((a + b)[n - 1] == a[n - 1]);
    }
}

proof fn lemma_spliced(
    disk: Disk,
    variables: Seq<(Seq<char>, Seq<char>)>,
    path: Seq<char>,
    base: Seq<char>,
    room: nat,
    ancestors: Seq<Seq<char>>,
    a: Seq<config::WorkspaceEntryView>,
    b: Seq<config::WorkspaceEntryView>,
    n: int,
)
    requires
        0 <= n <= b.len(),
    ensures
        includes::load_entries(
            disk,
            variables,
            path,
            base,
            room,
            ancestors,
            a + b,
            a.len() + n,
        ) == includes::followed(
            includes::load_entries(disk, variables, path, base, room, ancestors, a, a.len() as int),
            includes::load_entries(disk, variables, path, base, room, ancestors, b, n),
        ),
    decreases n,
{
    let first = includes::load_entries(
        disk,
        variables,
        path,
        base,
        room,
        ancestors,
        a,
        a.len() as int,
    );
    if n == 0 {
        lemma_first_entries(disk, variables, path, base, room, ancestors, a, b, a.len() as int);
        assert(includes::followed(first, includes::nothing()) =~= first);
    } else {
        lemma_spliced(disk, variables, path, base, room, ancestors, a, b, n - 1);
        assert((a + b)[a.len() + n - 1] == b[n - 1]);
        lemma_followed_groups(
            first,
            includes::load_entries(disk, variables, path, base, room, ancestors, b, n - 1),
            includes::load_entry(disk, variables, path, base, room, ancestors, b[n - 1]),
        );
    }
}

/// What an entry comes to stands where the entry stands: the entries of a file
/// come to what the first of them come to, followed by what the rest do.
pub proof fn law_entries_are_spliced_in_order(
    disk: Disk,
    variables: Seq<(Seq<char>, Seq<char>)>,
    path: Seq<char>,
    base: Seq<char>,
    room: nat,
    ancestors: Seq<Seq<char>>,
    a: Seq<config::WorkspaceEntryView>,
    b: Seq<config::WorkspaceEntryView>,
)
    ensures
        includes::load_entries(
            disk,
            variables,
            path,
            base,
            room,
            ancestors,
            a + b,
            (a + b).len() as int,
        ) == includes::followed(
            includes::load_entries(disk, variables, path, base, room, ancestors, a, a.len() as int),
            includes::load_entries(disk, variables, path, base, room, ancestors, b, b.len() as int),
        ),
{
    lemma_spliced(disk, variables, path, base, room, ancestors, a, b, b.len() as int);
}

/// An include that names nothing comes to nothing where it is optional, and to
/// one error that names the including file where it is not.
pub proof fn law_missing_includes(
    disk: Disk,
    variables: Seq<(Seq<char>, Seq<char>)>,
    path: Seq<char>,
    base: Seq<char>,
    room: nat,
    ancestors: Seq<Seq<char>>,
    inc: config::IncludeView,
)
    requires
        includes::first_file(
            includes::target_candidates(inc.target, includes::dir_of(path, base), variables),
            disk.files,
        ) is Nothing,
        inc.optional || disk.dirs.contains_key(
            includes::target_path(inc.target, includes::dir_of(path, base), variables),
        ),
    ensures
        includes::load_entry(
            disk,
            variables,
            path,
            base,
            room,
            ancestors,
            config::WorkspaceEntryView::Include(inc),
        ) == if inc.optional {
            includes::nothing()
        } else {
            includes::refused(
                includes::missing_text(
                    inc.target,
                    path,
                    disk.dirs[includes::target_path(
                        inc.target,
                        includes::dir_of(path, base),
                        variables,
                    )],
                ),
            )
        },
{
}

/// Every workspace has an absolute root.
pub open spec fn absolute_roots(workspaces: Seq<config::WorkspaceView>) -> bool {
    forall|i: int|
        0 <= i < workspaces.len() ==> {
            let root = (#[trigger] workspaces[i]).root;
            root is Some && path::absolute(root->0)
        }
}

proof fn lemma_found_is_candidate(candidates: Seq<Seq<char>>, files: Map<Seq<char>, bool>)
    ensures
        includes::first_file(candidates, files) matches Search::Found(target)
            ==> candidates.contains(target),
    decreases candidates.len(),
{
    if candidates.len() > 0 {
        lemma_found_is_candidate(candidates.skip(1), files);
        if let Search::Found(target) = includes::first_file(candidates.skip(1), files) {
            if candidates.skip(1).contains(target) {
                let i = choose|i: int|
                    0 <= i < candidates.skip(1).len() && candidates.skip(1)[i] == target;
                assert(candidates[i + 1] == target);
            }
        }
        assert(candidates.contains(candidates[0]));
    }
}

/// Seen from an absolute directory, every path an include might resolve to is
/// absolute.
pub proof fn law_include_candidates_are_absolute(
    raw: Seq<char>,
    dir: Seq<char>,
    variables: Seq<(Seq<char>, Seq<char>)>,
)
    requires
        path::absolute(dir),
    ensures
        forall|i: int|
            0 <= i < includes::target_candidates(raw, dir, variables).len() ==> path::absolute(
                #[trigger] includes::target_candidates(raw, dir, variables)[i],
            ),
{
    path::law_normalizing_keeps_root_and_names(
        path::joined_path(dir, config::expanded(raw, variables)),
    );
}

proof fn lemma_file_roots(
    disk: Disk,
    variables: Seq<(Seq<char>, Seq<char>)>,
    path: Seq<char>,
    base: Seq<char>,
    room: nat,
    ancestors: Seq<Seq<char>>,
)
    requires
        path::absolute(path),
        path::absolute(base),
    ensures
        absolute_roots(includes::load_file(disk, variables, path, base, room, ancestors).workspaces),
    decreases room, 0nat, 0int,
{
    if room > 0 && disk.sources.contains_key(path) {
        if let SourceOutcomeView::Parsed(entries) = disk.sources[path] {
            lemma_entries_roots(
                disk,
                variables,
                path,
                base,
                (room - 1) as nat,
                ancestors.push(disk.identities[path]),
                entries,
                entries.len() as int,
            );
        }
    }
}

proof fn lemma_entries_roots(
    disk: Disk,
    variables: Seq<(Seq<char>, Seq<char>)>,
    path: Seq<char>,
    base: Seq<char>,
    room: nat,
    ancestors: Seq<Seq<char>>,
    entries: Seq<config::WorkspaceEntryView>,
    n: int,
)
    requires
        path::absolute(path),
        path::absolute(base),
    ensures
        absolute_roots(
            includes::load_entries(
                disk,
                variables,
                path,
                base,
                room,
                ancestors,
                entries,
                n,
            ).workspaces,
        ),
    decreases room, 2nat, n,
{
    if n > 0 {
        lemma_entries_roots(disk, variables, path, base, room, ancestors, entries, n - 1);
        lemma_entry_roots(disk, variables, path, base, room, ancestors, entries[n - 1]);
    }
}

proof fn lemma_entry_roots(
    disk: Disk,
    variables: Seq<(Seq<char>, Seq<char>)>,
    path: Seq<char>,
    base: Seq<char>,
    room: nat,
    ancestors: Seq<Seq<char>>,
    entry: config::WorkspaceEntryView,
)
    requires
        path::absolute(path),
        path::absolute(base),
    ensures
        absolute_roots(
            includes::load_entry(disk, variables, path, base, room, ancestors, entry).workspaces,
        ),
    decreases room, 1nat, 0int,
{
    if let config::WorkspaceEntryView::Include(inc) = entry {
        let here = includes::dir_of(path, base);
        path::law_directories_of_absolute_paths_are_absolute(path);
        let candidates = includes::target_candidates(inc.target, here, variables);
        law_include_candidates_are_absolute(inc.target, here, variables);
        lemma_found_is_candidate(candidates, disk.files);
        if let Search::Found(target) = includes::first_file(candidates, disk.files) {
            let i = choose|i: int| 0 <= i < candidates.len() && candidates[i] == target;
            assert(path::absolute(candidates[i]));
            path::law_directories_of_absolute_paths_are_absolute(target);
            lemma_file_roots(
                disk,
                variables,
                target,
                includes::dir_of(target, here),
                room,
                ancestors,
            );
        }
    }
}

/// Loaded from an absolute path, against an absolute directory, every
/// workspace has an absolute root, whichever file it came from.
pub proof fn law_loaded_roots_are_absolute(
    disk: Disk,
    variables: Seq<(Seq<char>, Seq<char>)>,
    path: Seq<char>,
    base: Seq<char>,
)
    requires
        path::absolute(path),
        path::absolute(base),
    ensures
        absolute_roots(includes::load_all(disk, variables, path, base).workspaces),
{
    lemma_file_roots(
        disk,
        variables,
        path,
        base,
        (MAX_INCLUDE_DEPTH + 1) as nat,
        Seq::empty(),
    );
}

/// A workspace without a root, in a file that is included, gets the directory
/// of that file for its root.
pub proof fn law_included_workspaces_live_beside_their_file(
    disk: Disk,
    variables: Seq<(Seq<char>, Seq<char>)>,
    path: Seq<char>,
    base: Seq<char>,
    room: nat,
    ancestors: Seq<Seq<char>>,
    inc: config::IncludeView,
    target: Seq<char>,
    file: Seq<config::WorkspaceView>,
    i: int,
)
    requires
        room > 0,
        includes::first_file(
            includes::target_candidates(inc.target, includes::dir_of(path, base), variables),
            disk.files,
        ) == Search::Found(target),
        disk.identities.contains_key(target),
        !path::holds(ancestors, disk.identities[target]),
        disk.sources.contains_key(target),
        disk.sources[target] == SourceOutcomeView::Parsed(inline_entries(file)),
        path::parent_of(target) is Some,
        0 <= i < file.len(),
        file[i].root is None,
    ensures
        ({
            let loaded = includes::load_entry(
                disk,
                variables,
                path,
                base,
                room,
                ancestors,
                config::WorkspaceEntryView::Include(inc),
            );
            &&& loaded.workspaces.len() == file.len()
            &&& loaded.workspaces[i].root == path::parent_of(target)
        }),
{
    let target_base = includes::dir_of(target, includes::dir_of(path, base));
    let resolved = config::resolved_file(file, variables, target_base);
    lemma_inline_entries(
        disk,
        variables,
        target,
        target_base,
        (room - 1) as nat,
        ancestors.push(disk.identities[target]),
        file,
        file.len() as int,
    );
    assert(resolved.take(file.len() as int) =~= resolved);
    assert(includes::load_file(disk, variables, target, target_base, room, ancestors).workspaces
        == resolved);
}

/// One of the things that `outer` is made of, in order, is `inner`.
pub open spec fn part_of(inner: Loaded, outer: Loaded) -> bool {
    exists|before: Loaded, after: Loaded|
        outer == #[trigger] includes::followed(includes::followed(before, inner), after)
}

proof fn lemma_parts_of_parts(inner: Loaded, middle: Loaded, outer: Loaded)
    requires
        part_of(inner, middle),
        part_of(middle, outer),
    ensures
        part_of(inner, outer),
{
    let (b, a) = choose|before: Loaded, after: Loaded|
        middle == #[trigger] includes::followed(includes::followed(before, inner), after);
    let (before, after) = choose|before: Loaded, after: Loaded|
        outer == #[trigger] includes::followed(includes::followed(before, middle), after);
    let front = includes::followed(before, b);
    let back = includes::followed(a, after);
    lemma_followed_groups(before, includes::followed(b, inner), a);
    lemma_followed_groups(before, b, inner);
    lemma_followed_groups(includes::followed(front, inner), a, after);
    assert(outer == includes::followed(includes::followed(front, inner), back));
}

proof fn lemma_whole_is_part(whole: Loaded)
    ensures
        part_of(whole, whole),
{
    let nothing = includes::nothing();
    assert(whole =~= includes::followed(includes::followed(nothing, whole), nothing));
}

/// Where no answer is missing, everything in a part is in the whole.
pub proof fn law_parts_are_kept(inner: Loaded, outer: Loaded)
    requires
        part_of(inner, outer),
        outer.missing is None,
    ensures
        inner.missing is None,
        forall|finding: validate::FindingView| #[trigger]
            inner.findings.contains(finding) ==> outer.findings.contains(finding),
        forall|ws: config::WorkspaceView| #[trigger]
            inner.workspaces.contains(ws) ==> outer.workspaces.contains(ws),
{
    let (before, after) = choose|before: Loaded, after: Loaded|
        outer == #[trigger] includes::followed(includes::followed(before, inner), after);
    assert forall|finding: validate::FindingView| #[trigger]
        inner.findings.contains(finding) implies outer.findings.contains(finding) by {
        let i = choose|i: int| 0 <= i < inner.findings.len() && inner.findings[i] == finding;
        assert(outer.findings[before.findings.len() + i] == finding);
    }
    assert forall|ws: config::WorkspaceView| #[trigger]
        inner.workspaces.contains(ws) implies outer.workspaces.contains(ws) by {
        let i = choose|i: int| 0 <= i < inner.workspaces.len() && inner.workspaces[i] == ws;
        assert(outer.workspaces[before.workspaces.len() + i] == ws);
    }
}

/// What an entry comes to is part of what its file comes to.
pub proof fn law_entries_are_part_of_their_file(
    disk: Disk,
    variables: Seq<(Seq<char>, Seq<char>)>,
    path: Seq<char>,
    base: Seq<char>,
    room: nat,
    ancestors: Seq<Seq<char>>,
    entries: Seq<config::WorkspaceEntryView>,
    k: int,
    n: int,
)
    requires
        0 <= k < n <= entries.len(),
    ensures
        part_of(
            includes::load_entry(disk, variables, path, base, room, ancestors, entries[k]),
            includes::load_entries(disk, variables, path, base, room, ancestors, entries, n),
        ),
    decreases n,
{
    let earlier = includes::load_entries(
        disk,
        variables,
        path,
        base,
        room,
        ancestors,
        entries,
        n - 1,
    );
    let last = includes::load_entry(disk, variables, path, base, room, ancestors, entries[n - 1]);
    let all = includes::load_entries(disk, variables, path, base, room, ancestors, entries, n);
    let nothing = includes::nothing();
    assert(all == includes::followed(earlier, last));
    if k == n - 1 {
        assert(all =~= includes::followed(includes::followed(earlier, last), nothing));
    } else {
        law_entries_are_part_of_their_file(
            disk,
            variables,
            path,
            base,
            room,
            ancestors,
            entries,
            k,
            n - 1,
        );
        assert(all =~= includes::followed(includes::followed(nothing, earlier), last));
        assert(part_of(earlier, all));
        lemma_parts_of_parts(
            includes::load_entry(disk, variables, path, base, room, ancestors, entries[k]),
            earlier,
            all,
        );
    }
}

/// Entry `position` of the layout file at `file` is an include that leads to
/// the file at `target`.
pub open spec fn leads_to(
    disk: Disk,
    variables: Seq<(Seq<char>, Seq<char>)>,
    file: Seq<char>,
    base: Seq<char>,
    position: int,
    target: Seq<char>,
) -> bool {
    &&& disk.identities.contains_key(file)
    &&& disk.sources.contains_key(file)
    &&& disk.sources[file] matches SourceOutcomeView::Parsed(entries)
    &&& 0 <= position < entries.len()
    &&& entries[position] matches config::WorkspaceEntryView::Include(link)
    &&& includes::first_file(
        includes::target_candidates(link.target, includes::dir_of(file, base), variables),
        disk.files,
    ) == Search::Found(target)
}

/// The directory that the paths of file `n` of a chain resolve against.
pub open spec fn chain_base(chain: Seq<Seq<char>>, base: Seq<char>, n: int) -> Seq<char>
    decreases n,
{
    if n <= 0 {
        base
    } else {
        includes::dir_of(chain[n], includes::dir_of(chain[n - 1], chain_base(chain, base, n - 1)))
    }
}

/// In each file of the chain there is an entry that leads to the next one,
/// whatever else the file holds.
pub open spec fn is_chain(
    disk: Disk,
    variables: Seq<(Seq<char>, Seq<char>)>,
    chain: Seq<Seq<char>>,
    base: Seq<char>,
    positions: Seq<int>,
) -> bool {
    &&& chain.len() == positions.len() + 1
    &&& forall|k: int|
        0 <= k < positions.len() ==> leads_to(
            disk,
            variables,
            chain[k],
            chain_base(chain, base, k),
            #[trigger] positions[k],
            chain[k + 1],
        )
}

/// The identities of the first `n` files of a chain.
pub open spec fn identities_of(disk: Disk, chain: Seq<Seq<char>>, n: int) -> Seq<Seq<char>> {
    Seq::new(n as nat, |k: int| disk.identities[chain[k]])
}

/// None of the first `n` files of a chain comes a second time.
pub open spec fn no_repeats(disk: Disk, chain: Seq<Seq<char>>, n: int) -> bool {
    forall|k: int|
        0 <= k < n ==> !path::holds(
            #[trigger] identities_of(disk, chain, k),
            disk.identities[chain[k]],
        )
}

/// The first `n` files of a chain hold nothing but their include.
pub open spec fn nothing_else(disk: Disk, chain: Seq<Seq<char>>, n: int) -> bool {
    forall|k: int|
        0 <= k < n ==> (disk.sources[#[trigger] chain[k]] matches SourceOutcomeView::Parsed(entries)
            ==> entries.len() == 1)
}

/// Loading walks down a chain as long as no file comes twice: what a file of
/// the chain comes to is part of the whole, and all of it where the files
/// before it hold nothing else.
pub proof fn law_chains_are_part_of_the_whole(
    disk: Disk,
    variables: Seq<(Seq<char>, Seq<char>)>,
    chain: Seq<Seq<char>>,
    base: Seq<char>,
    positions: Seq<int>,
    n: int,
)
    requires
        is_chain(disk, variables, chain, base, positions),
        0 <= n < chain.len(),
        n <= MAX_INCLUDE_DEPTH + 1,
        no_repeats(disk, chain, n),
    ensures
        ({
            let loaded = includes::load_file(
                disk,
                variables,
                chain[n],
                chain_base(chain, base, n),
                (MAX_INCLUDE_DEPTH + 1 - n) as nat,
                identities_of(disk, chain, n),
            );
            let whole = includes::load_all(disk, variables, chain[0], base);
            &&& part_of(loaded, whole)
            &&& nothing_else(disk, chain, n) ==> whole == loaded
        }),
    decreases n,
{
    let ids = identities_of(disk, chain, n);
    let whole = includes::load_all(disk, variables, chain[0], base);
    if n == 0 {
        assert(ids =~= Seq::<Seq<char>>::empty());
        lemma_whole_is_part(whole);
    } else {
        let earlier = identities_of(disk, chain, n - 1);
        law_chains_are_part_of_the_whole(disk, variables, chain, base, positions, n - 1);
        let file = chain[n - 1];
        let position = positions[n - 1];
        let file_base = chain_base(chain, base, n - 1);
        let room = (MAX_INCLUDE_DEPTH + 1 - n) as nat;
        assert(ids =~= earlier.push(disk.identities[file]));
        let entries = disk.sources[file]->Parsed_0;
        let entry = entries[position];
        let added = includes::load_entry(disk, variables, file, file_base, room, ids, entry);
        let all = includes::load_entries(
            disk,
            variables,
            file,
            file_base,
            room,
            ids,
            entries,
            entries.len() as int,
        );
        assert(all == includes::load_file(
            disk,
            variables,
            file,
            file_base,
            (room + 1) as nat,
            earlier,
        ));
        law_entries_are_part_of_their_file(
            disk,
            variables,
            file,
            file_base,
            room,
            ids,
            entries,
            position,
            entries.len() as int,
        );
        lemma_parts_of_parts(added, all, whole);
        if nothing_else(disk, chain, n) {
            assert(disk.sources[chain[n - 1]] is Parsed);
            assert(includes::load_entries(
                disk,
                variables,
                file,
                file_base,
                room,
                ids,
                entries,
                0,
            ) == includes::nothing());
            assert(all == includes::followed(includes::nothing(), added));
            assert(all =~= added);
        }
    }
}

/// An include whose file is among those that led to it is refused, with an
/// error that names them all.
pub proof fn law_repeated_files_are_refused(
    disk: Disk,
    variables: Seq<(Seq<char>, Seq<char>)>,
    path: Seq<char>,
    base: Seq<char>,
    room: nat,
    ancestors: Seq<Seq<char>>,
    inc: config::IncludeView,
    target: Seq<char>,
)
    requires
        room > 0,
        includes::first_file(
            includes::target_candidates(inc.target, includes::dir_of(path, base), variables),
            disk.files,
        ) == Search::Found(target),
        disk.identities.contains_key(target),
        path::holds(ancestors, disk.identities[target]),
    ensures
        includes::load_entry(
            disk,
            variables,
            path,
            base,
            room,
            ancestors,
            config::WorkspaceEntryView::Include(inc),
        ) == includes::refused(includes::cycle_text(disk.identities[target], ancestors)),
{
}

/// A whole that a refusal is part of holds its error, and is itself refused.
proof fn lemma_refused_part(message: Seq<char>, whole: Loaded)
    requires
        part_of(includes::refused(message), whole),
        whole.missing is None,
    ensures
        whole.findings.contains(validate::error_view(message)),
        forall|r: Result<config::SpreadFile, Vec<validate::ValidationFinding>>| #[trigger]
            includes::settled(whole, r) ==> r is Err,
{
    law_parts_are_kept(includes::refused(message), whole);
    assert(includes::refused(message).findings[0] == validate::error_view(message));
    assert(includes::refused(message).findings.contains(validate::error_view(message)));
}

/// A file that includes itself, directly or through a chain, is refused, with
/// an error that names every file of the loop, whatever else the files hold.
/// Where they hold nothing else, that error is all there is.
pub proof fn law_include_cycles_are_refused(
    disk: Disk,
    variables: Seq<(Seq<char>, Seq<char>)>,
    chain: Seq<Seq<char>>,
    base: Seq<char>,
    positions: Seq<int>,
)
    requires
        is_chain(disk, variables, chain, base, positions),
        0 < positions.len() <= MAX_INCLUDE_DEPTH,
        no_repeats(disk, chain, positions.len() as int),
        disk.identities.contains_key(chain.last()),
        path::holds(
            identities_of(disk, chain, positions.len() as int),
            disk.identities[chain.last()],
        ),
    ensures
        ({
            let whole = includes::load_all(disk, variables, chain[0], base);
            let message = includes::cycle_text(
                disk.identities[chain.last()],
                identities_of(disk, chain, positions.len() as int),
            );
            &&& whole.missing is None ==> {
                &&& whole.findings.contains(validate::error_view(message))
                &&& forall|r: Result<config::SpreadFile, Vec<validate::ValidationFinding>>|
                    #[trigger]
                    includes::settled(whole, r) ==> r is Err
            }
            &&& nothing_else(disk, chain, positions.len() as int) ==> whole == includes::refused(
                message,
            )
        }),
{
    let n = positions.len() as int;
    let whole = includes::load_all(disk, variables, chain[0], base);
    law_chains_are_part_of_the_whole(disk, variables, chain, base, positions, n);
    if whole.missing is None {
        lemma_refused_part(
            includes::cycle_text(disk.identities[chain.last()], identities_of(disk, chain, n)),
            whole,
        );
    }
}

/// It does not matter where a loop goes back to: a chain that leads to a file
/// that it has passed, however long ago, is refused.
pub proof fn law_loops_to_any_file_are_refused(
    disk: Disk,
    variables: Seq<(Seq<char>, Seq<char>)>,
    chain: Seq<Seq<char>>,
    base: Seq<char>,
    positions: Seq<int>,
    passed: int,
)
    requires
        is_chain(disk, variables, chain, base, positions),
        0 <= passed < positions.len() <= MAX_INCLUDE_DEPTH,
        no_repeats(disk, chain, positions.len() as int),
        disk.identities.contains_key(chain.last()),
        path::same_path(disk.identities[chain[passed]], disk.identities[chain.last()]),
    ensures
        ({
            let whole = includes::load_all(disk, variables, chain[0], base);
            whole.missing is None ==> {
                &&& whole.findings.len() > 0
                &&& forall|r: Result<config::SpreadFile, Vec<validate::ValidationFinding>>|
                    #[trigger]
                    includes::settled(whole, r) ==> r is Err
            }
        }),
{
    let ids = identities_of(disk, chain, positions.len() as int);
    assert(path::same_path(ids[passed], disk.identities[chain.last()]));
    law_include_cycles_are_refused(disk, variables, chain, base, positions);
}

/// A chain of includes that is deeper than [`MAX_INCLUDE_DEPTH`] is refused,
/// whatever else its files hold. Where they hold nothing else, that error is
/// all there is.
pub proof fn law_deep_chains_are_refused(
    disk: Disk,
    variables: Seq<(Seq<char>, Seq<char>)>,
    chain: Seq<Seq<char>>,
    base: Seq<char>,
    positions: Seq<int>,
)
    requires
        is_chain(disk, variables, chain, base, positions),
        positions.len() > MAX_INCLUDE_DEPTH,
        no_repeats(disk, chain, MAX_INCLUDE_DEPTH + 1),
    ensures
        ({
            let whole = includes::load_all(disk, variables, chain[0], base);
            let message = includes::depth_text(chain[MAX_INCLUDE_DEPTH + 1]);
            &&& whole.missing is None ==> {
                &&& whole.findings.contains(validate::error_view(message))
                &&& forall|r: Result<config::SpreadFile, Vec<validate::ValidationFinding>>|
                    #[trigger]
                    includes::settled(whole, r) ==> r is Err
            }
            &&& nothing_else(disk, chain, MAX_INCLUDE_DEPTH + 1) ==> whole == includes::refused(
                message,
            )
        }),
{
    let n = MAX_INCLUDE_DEPTH + 1;
    let whole = includes::load_all(disk, variables, chain[0], base);
    law_chains_are_part_of_the_whole(disk, variables, chain, base, positions, n);
    if whole.missing is None {
        lemma_refused_part(includes::depth_text(chain[n]), whole);
    }
}

/// A chain of includes that is no deeper is followed to its end: what the last
/// file says, its paths resolved against its own directory, is part of the
/// whole, and all of it where the other files hold nothing else.
pub proof fn law_chains_are_followed(
    disk: Disk,
    variables: Seq<(Seq<char>, Seq<char>)>,
    chain: Seq<Seq<char>>,
    base: Seq<char>,
    positions: Seq<int>,
    file: Seq<config::WorkspaceView>,
)
    requires
        is_chain(disk, variables, chain, base, positions),
        positions.len() <= MAX_INCLUDE_DEPTH,
        no_repeats(disk, chain, chain.len() as int),
        disk.identities.contains_key(chain.last()),
        disk.sources.contains_key(chain.last()),
        disk.sources[chain.last()] == SourceOutcomeView::Parsed(inline_entries(file)),
    ensures
        ({
            let n = positions.len() as int;
            let whole = includes::load_all(disk, variables, chain[0], base);
            let loaded = Loaded {
                workspaces: config::resolved_file(file, variables, chain_base(chain, base, n)),
                findings: Seq::empty(),
                missing: None,
            };
            &&& part_of(loaded, whole)
            &&& nothing_else(disk, chain, n) ==> whole == loaded
        }),
{
    let n = positions.len() as int;
    let ids = identities_of(disk, chain, n);
    let last = chain[n];
    law_chains_are_part_of_the_whole(disk, variables, chain, base, positions, n);
    let dir = chain_base(chain, base, n);
    lemma_inline_entries(
        disk,
        variables,
        last,
        dir,
        (MAX_INCLUDE_DEPTH - n) as nat,
        ids.push(disk.identities[last]),
        file,
        file.len() as int,
    );
    let resolved = config::resolved_file(file, variables, dir);
    assert(resolved.take(file.len() as int) =~= resolved);
}

/// The path that a question is about.
pub open spec fn asked_path(question: QuestionView) -> Seq<char> {
    match question {
        QuestionView::Identity(path) => path,
        QuestionView::Source(path) => path,
        QuestionView::IsFile(path) => path,
        QuestionView::IsDir(path) => path,
    }
}

/// Entry `k` of the layout file at `file` names this path, seen from `dir`.
pub open spec fn entry_names(
    disk: Disk,
    variables: Seq<(Seq<char>, Seq<char>)>,
    file: Seq<char>,
    k: int,
    dir: Seq<char>,
    path: Seq<char>,
) -> bool {
    &&& disk.sources.contains_key(file)
    &&& disk.sources[file] matches SourceOutcomeView::Parsed(entries)
    &&& 0 <= k < entries.len()
    &&& entries[k] matches config::WorkspaceEntryView::Include(inc)
    &&& path::parent_of(file) matches Some(parent) ==> dir == parent
    &&& includes::target_candidates(inc.target, dir, variables).contains(path)
}

/// A layout file that was read names this path in an include.
pub open spec fn named_by_layout(
    disk: Disk,
    variables: Seq<(Seq<char>, Seq<char>)>,
    path: Seq<char>,
) -> bool {
    exists|file: Seq<char>, k: int, dir: Seq<char>| #[trigger]
        entry_names(disk, variables, file, k, dir, path)
}

/// A path that loading may touch: the one it starts with, or one that a layout
/// names.
pub open spec fn allowed(
    disk: Disk,
    variables: Seq<(Seq<char>, Seq<char>)>,
    start: Seq<char>,
    path: Seq<char>,
) -> bool {
    path == start || named_by_layout(disk, variables, path)
}

proof fn lemma_search_asks_candidate(candidates: Seq<Seq<char>>, files: Map<Seq<char>, bool>)
    ensures
        includes::first_file(candidates, files) matches Search::Unknown(path)
            ==> candidates.contains(path),
    decreases candidates.len(),
{
    if candidates.len() > 0 {
        lemma_search_asks_candidate(candidates.skip(1), files);
        if let Search::Unknown(path) = includes::first_file(candidates.skip(1), files) {
            if candidates.skip(1).contains(path) {
                let i = choose|i: int|
                    0 <= i < candidates.skip(1).len() && candidates.skip(1)[i] == path;
                assert(candidates[i + 1] == path);
            }
        }
        assert(candidates.contains(candidates[0]));
    }
}

proof fn lemma_file_touches_allowed(
    disk: Disk,
    variables: Seq<(Seq<char>, Seq<char>)>,
    start: Seq<char>,
    path: Seq<char>,
    base: Seq<char>,
    room: nat,
    ancestors: Seq<Seq<char>>,
)
    requires
        allowed(disk, variables, start, path),
    ensures
        includes::load_file(disk, variables, path, base, room, ancestors).missing matches Some(
            question,
        ) ==> allowed(disk, variables, start, asked_path(question)),
    decreases room, 0nat, 0int,
{
    if room > 0 && disk.sources.contains_key(path) {
        if let SourceOutcomeView::Parsed(entries) = disk.sources[path] {
            lemma_entries_touch_allowed(
                disk,
                variables,
                start,
                path,
                base,
                (room - 1) as nat,
                ancestors.push(disk.identities[path]),
                entries,
                entries.len() as int,
            );
        }
    }
}

proof fn lemma_entries_touch_allowed(
    disk: Disk,
    variables: Seq<(Seq<char>, Seq<char>)>,
    start: Seq<char>,
    path: Seq<char>,
    base: Seq<char>,
    room: nat,
    ancestors: Seq<Seq<char>>,
    entries: Seq<config::WorkspaceEntryView>,
    n: int,
)
    requires
        disk.sources.contains_key(path),
        disk.sources[path] == SourceOutcomeView::Parsed(entries),
        0 <= n <= entries.len(),
    ensures
        includes::load_entries(
            disk,
            variables,
            path,
            base,
            room,
            ancestors,
            entries,
            n,
        ).missing matches Some(question) ==> allowed(
            disk,
            variables,
            start,
            asked_path(question),
        ),
    decreases room, 2nat, n,
{
    if n > 0 {
        lemma_entries_touch_allowed(
            disk,
            variables,
            start,
            path,
            base,
            room,
            ancestors,
            entries,
            n - 1,
        );
        lemma_entry_touches_allowed(
            disk,
            variables,
            start,
            path,
            base,
            room,
            ancestors,
            entries,
            n - 1,
        );
    }
}

proof fn lemma_entry_touches_allowed(
    disk: Disk,
    variables: Seq<(Seq<char>, Seq<char>)>,
    start: Seq<char>,
    path: Seq<char>,
    base: Seq<char>,
    room: nat,
    ancestors: Seq<Seq<char>>,
    entries: Seq<config::WorkspaceEntryView>,
    k: int,
)
    requires
        disk.sources.contains_key(path),
        disk.sources[path] == SourceOutcomeView::Parsed(entries),
        0 <= k < entries.len(),
    ensures
        includes::load_entry(
            disk,
            variables,
            path,
            base,
            room,
            ancestors,
            entries[k],
        ).missing matches Some(question) ==> allowed(
            disk,
            variables,
            start,
            asked_path(question),
        ),
    decreases room, 1nat, 0int,
{
    if let config::WorkspaceEntryView::Include(inc) = entries[k] {
        let here = includes::dir_of(path, base);
        let candidates = includes::target_candidates(inc.target, here, variables);
        assert forall|candidate: Seq<char>| #[trigger] candidates.contains(candidate) implies
            named_by_layout(disk, variables, candidate) by {
            assert(entry_names(disk, variables, path, k, here, candidate));
        }
        lemma_search_asks_candidate(candidates, disk.files);
        lemma_found_is_candidate(candidates, disk.files);
        assert(candidates.contains(candidates[0]));
        if let Search::Found(target) = includes::first_file(candidates, disk.files) {
            lemma_file_touches_allowed(
                disk,
                variables,
                start,
                target,
                includes::dir_of(target, here),
                room,
                ancestors,
            );
        }
    }
}

/// Files are never discovered by walking the disk: loading asks only about the
/// file it starts with, and about paths that a layout file it has read names.
pub proof fn law_only_named_paths_are_touched(
    disk: Disk,
    variables: Seq<(Seq<char>, Seq<char>)>,
    path: Seq<char>,
    base: Seq<char>,
)
    ensures
        includes::load_all(disk, variables, path, base).missing matches Some(question) ==> allowed(
            disk,
            variables,
            path,
            asked_path(question),
        ),
{
    lemma_file_touches_allowed(
        disk,
        variables,
        path,
        path,
        base,
        (MAX_INCLUDE_DEPTH + 1) as nat,
        Seq::empty(),
    );
}

} // verus!
