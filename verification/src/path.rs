//! Unix path arithmetic on texts.
//!
//! A path is a text whose segments are separated by `/`. The functions here
//! only look at that text; nothing is asked of a file system.

use vstd::prelude::*;

use crate::text;
use crate::text::{join_texts, same_text};

verus! {

/// A path that starts at the root.
pub open spec fn absolute(path: Seq<char>) -> bool {
    path.len() > 0 && path[0] == '/'
}

/// `path` seen from `base`: an absolute path replaces the base, any other is
/// appended to it behind one separator.
pub open spec fn joined_path(base: Seq<char>, path: Seq<char>) -> Seq<char> {
    if absolute(path) {
        path
    } else if base.len() == 0 || base.last() == '/' {
        base + path
    } else {
        base + seq!['/'] + path
    }
}

/// The texts between the separators of a path, empty ones included.
pub open spec fn segments(path: Seq<char>) -> Seq<Seq<char>>
    decreases path.len(),
{
    if path.len() == 0 {
        seq![Seq::empty()]
    } else {
        let init = segments(path.drop_last());
        if path.last() == '/' {
            init.push(Seq::empty())
        } else {
            init.drop_last().push(init.last().push(path.last()))
        }
    }
}

/// A segment that names something: neither empty nor the current directory.
pub open spec fn names_something(segment: Seq<char>) -> bool {
    segment.len() > 0 && segment != seq!['.']
}

/// The segments that name something, in order.
pub open spec fn named(segments: Seq<Seq<char>>) -> Seq<Seq<char>>
    decreases segments.len(),
{
    if segments.len() == 0 {
        Seq::empty()
    } else if names_something(segments.last()) {
        named(segments.drop_last()).push(segments.last())
    } else {
        named(segments.drop_last())
    }
}

/// A path with repeated separators, trailing separators and `.` segments taken
/// out. A `..` segment stays: only whoever walks the path can tell where it
/// leads.
pub open spec fn normalized(path: Seq<char>) -> Seq<char> {
    let head: Seq<char> = if absolute(path) {
        seq!['/']
    } else {
        Seq::empty()
    };
    head + text::joined_text(named(segments(path)), seq!['/'])
}

/// Whether `path` starts at the root.
pub fn is_absolute(path: &str) -> (r: bool)
    ensures
        r == absolute(path@),
{
    !path.is_empty() && path.get_char(0) == '/'
}

/// `path` seen from `base`.
pub fn join_path(base: &str, path: &str) -> (joined: String)
    ensures
        joined@ == joined_path(base@, path@),
{
    if is_absolute(path) {
        return path.to_string();
    }
    let len: usize = base.unicode_len();
    let mut joined: String = base.to_string();
    if len > 0 && base.get_char(len - 1) != '/' {
        proof {
            reveal_strlit("/");
            assert("/"@ =~= seq!['/']);
        }
        joined.append("/");
    }
    joined.append(path);
    joined
}

/// `path` with repeated separators, trailing separators and `.` segments taken
/// out.
pub fn normalize_path(path: &str) -> (normal: String)
    ensures
        normal@ == normalized(path@),
{
    proof {
        reveal_strlit("/");
        reveal_strlit(".");
        assert("/"@ =~= seq!['/']);
        assert("."@ =~= seq!['.']);
    }
    let len: usize = path.unicode_len();
    let mut names: Vec<String> = Vec::new();
    let mut start: usize = 0;
    let mut i: usize = 0;
    while i < len
        invariant
            start <= i <= len,
            len == path@.len(),
            "."@ == seq!['.'],
            segments(path@.take(i as int)).len() > 0,
            segments(path@.take(i as int)).last() == path@.subrange(start as int, i as int),
            names.deep_view() == named(segments(path@.take(i as int)).drop_last()),
        decreases len - i,
    {
        let ghost seen = segments(path@.take(i as int));
        proof {
            assert(path@.take(i + 1).drop_last() == path@.take(i as int));
            assert(path@.take(i + 1).last() == path@[i as int]);
        }
        if path.get_char(i) == '/' {
            push_if_named(&mut names, path.substring_char(start, i));
            assert(seen.push(Seq::empty()).drop_last() == seen);
            start = i + 1;
        } else {
            assert(path@.subrange(start as int, i + 1) == path@.subrange(start as int, i as int).push(
                path@[i as int],
            ));
            let ghost grown = seen.last().push(path@[i as int]);
            assert(seen.drop_last().push(grown).drop_last() == seen.drop_last());
        }
        i = i + 1;
    }
    assert(path@.take(len as int) == path@);
    push_if_named(&mut names, path.substring_char(start, len));
    let mut normal: String = if is_absolute(path) {
        "/".to_string()
    } else {
        String::new()
    };
    normal.append(join_texts(&names, "/").as_str());
    normal
}

/// Adds a segment to the names, if it names something.
fn push_if_named(names: &mut Vec<String>, segment: &str)
    ensures
        final(names).deep_view() == if names_something(segment@) {
            old(names).deep_view().push(segment@)
        } else {
            old(names).deep_view()
        },
{
    proof {
        reveal_strlit(".");
        assert("."@ =~= seq!['.']);
    }
    if !segment.is_empty() && !same_text(segment, ".") {
        let ghost earlier = names.deep_view();
        names.push(segment.to_string());
        assert(names.deep_view() =~= earlier.push(segment@));
    }
}

/// Where the segments of a path begin: behind the root, behind a leading `.`
/// segment, or at the start.
pub open spec fn body_start(path: Seq<char>) -> nat {
    if absolute(path) {
        1
    } else if path.len() > 0 && path[0] == '.' && (path.len() == 1 || path[1] == '/') {
        1
    } else {
        0
    }
}

/// Two texts of one path: both start at the root or neither does, both start
/// with a `.` segment or neither does, and they name the same segments in the
/// same order.
pub open spec fn same_path(a: Seq<char>, b: Seq<char>) -> bool {
    &&& absolute(a) == absolute(b)
    &&& body_start(a) == body_start(b)
    &&& named(segments(a)) == named(segments(b))
}

/// Whether one of `paths` is the path `path`.
pub open spec fn holds(paths: Seq<Seq<char>>, path: Seq<char>) -> bool {
    exists|i: int| 0 <= i < paths.len() && #[trigger] same_path(paths[i], path)
}

/// A path without the separators and `.` segments at its end, back to `head`.
pub open spec fn trimmed(path: Seq<char>, head: nat) -> Seq<char>
    decreases path.len(),
{
    if path.len() <= head {
        path
    } else if path.last() == '/' || (path.last() == '.' && path.len() >= 2 && path[path.len() - 2]
        == '/') {
        trimmed(path.drop_last(), head)
    } else {
        path
    }
}

/// A path without its last segment and the separator in front of it, back to
/// `head`.
pub open spec fn without_last(path: Seq<char>, head: nat) -> Seq<char>
    decreases path.len(),
{
    if path.len() <= head {
        path
    } else if path.last() == '/' {
        path.drop_last()
    } else {
        without_last(path.drop_last(), head)
    }
}

/// The directory a path lies in. A single segment lies in the directory that
/// the empty path stands for; the root and the empty path lie in none.
pub open spec fn parent_of(path: Seq<char>) -> Option<Seq<char>> {
    let head = body_start(path);
    let whole = trimmed(path, head);
    if whole.len() > head {
        Some(trimmed(without_last(whole, head), head))
    } else if head == 1 && !absolute(path) {
        Some(Seq::empty())
    } else {
        None
    }
}

/// How much of the first `len` characters is left without the separators and
/// `.` segments at their end.
fn trimmed_len(path: &str, head: usize, len: usize) -> (r: usize)
    requires
        len <= path@.len(),
    ensures
        r <= len,
        path@.take(r as int) == trimmed(path@.take(len as int), head as nat),
{
    let mut r: usize = len;
    while r > head
        invariant
            r <= len,
            len <= path@.len(),
            trimmed(path@.take(r as int), head as nat) == trimmed(
                path@.take(len as int),
                head as nat,
            ),
        decreases r,
    {
        let last: char = path.get_char(r - 1);
        assert(path@.take(r as int).drop_last() == path@.take(r - 1));
        if last != '/' && (last != '.' || r < 2 || path.get_char(r - 2) != '/') {
            return r;
        }
        r = r - 1;
    }
    r
}

/// How much of the first `len` characters stands in front of their last
/// segment.
fn without_last_len(path: &str, head: usize, len: usize) -> (r: usize)
    requires
        len <= path@.len(),
    ensures
        r <= len,
        path@.take(r as int) == without_last(path@.take(len as int), head as nat),
{
    let mut r: usize = len;
    while r > head
        invariant
            r <= len,
            len <= path@.len(),
            without_last(path@.take(r as int), head as nat) == without_last(
                path@.take(len as int),
                head as nat,
            ),
        decreases r,
    {
        assert(path@.take(r as int).drop_last() == path@.take(r - 1));
        r = r - 1;
        if path.get_char(r) == '/' {
            return r;
        }
    }
    r
}

/// Where the segments of `path` begin.
fn head_len(path: &str) -> (head: usize)
    ensures
        head == body_start(path@),
{
    let len: usize = path.unicode_len();
    if len > 0 && (path.get_char(0) == '/' || (path.get_char(0) == '.' && (len == 1
        || path.get_char(1) == '/'))) {
        1
    } else {
        0
    }
}

/// Whether `a` and `b` are texts of one path.
pub fn is_same_path(a: &str, b: &str) -> (r: bool)
    ensures
        r == same_path(a@, b@),
{
    proof {
        law_normalizing_keeps_root_and_names(a@);
        law_normalizing_keeps_root_and_names(b@);
    }
    head_len(a) == head_len(b) && same_text(
        normalize_path(a).as_str(),
        normalize_path(b).as_str(),
    )
}

/// Whether one of `paths` is the path `path`.
pub fn holds_path(paths: &Vec<String>, path: &str) -> (r: bool)
    ensures
        r == holds(paths.deep_view(), path@),
{
    let mut i: usize = 0;
    while i < paths.len()
        invariant
            i <= paths.len(),
            forall|k: int| 0 <= k < i ==> !same_path(#[trigger] paths.deep_view()[k], path@),
        decreases paths.len() - i,
    {
        if is_same_path(paths[i].as_str(), path) {
            assert(same_path(paths.deep_view()[i as int], path@));
            return true;
        }
        i = i + 1;
    }
    false
}

/// The directory `path` lies in, if it lies in one.
pub fn parent(path: &str) -> (dir: Option<String>)
    ensures
        dir.deep_view() == parent_of(path@),
{
    let len: usize = path.unicode_len();
    let root: bool = is_absolute(path);
    let head: usize = head_len(path);
    assert(path@.take(len as int) == path@);
    let whole: usize = trimmed_len(path, head, len);
    if whole > head {
        let cut: usize = without_last_len(path, head, whole);
        let end: usize = trimmed_len(path, head, cut);
        Some(path.substring_char(0, end).to_string())
    } else if head == 1 && !root {
        Some(String::new())
    } else {
        None
    }
}

proof fn lemma_segments_nonempty(path: Seq<char>)
    ensures
        segments(path).len() > 0,
    decreases path.len(),
{
    if path.len() > 0 {
        lemma_segments_nonempty(path.drop_last());
    }
}

/// A separator divides the segments in front of it from those behind it.
proof fn lemma_segments_at_separator(a: Seq<char>, b: Seq<char>)
    ensures
        segments(a + seq!['/'] + b) == segments(a) + segments(b),
    decreases b.len(),
{
    let whole = a + seq!['/'] + b;
    lemma_segments_nonempty(b);
    if b.len() == 0 {
        assert(whole.drop_last() == a);
    } else {
        lemma_segments_at_separator(a, b.drop_last());
        lemma_segments_nonempty(b.drop_last());
        assert(whole.drop_last() == a + seq!['/'] + b.drop_last());
        let front = segments(a);
        let back = segments(b.drop_last());
        assert((front + back).last() == back.last());
        assert((front + back).drop_last() == front + back.drop_last());
    }
}

/// No segment holds a separator.
proof fn lemma_segments_hold_no_separator(path: Seq<char>)
    ensures
        forall|i: int, j: int|
            0 <= i < segments(path).len() && 0 <= j < segments(path)[i].len()
                ==> #[trigger] segments(path)[i][j] != '/',
    decreases path.len(),
{
    if path.len() > 0 {
        lemma_segments_hold_no_separator(path.drop_last());
        lemma_segments_nonempty(path.drop_last());
    }
}

/// A text without a separator is its own only segment.
proof fn lemma_single_segment(name: Seq<char>)
    requires
        forall|j: int| 0 <= j < name.len() ==> name[j] != '/',
    ensures
        segments(name) == seq![name],
    decreases name.len(),
{
    if name.len() > 0 {
        lemma_single_segment(name.drop_last());
        assert(name.drop_last().push(name.last()) == name);
    } else {
        assert(name == Seq::<char>::empty());
    }
}

/// Names without separators, joined by separators, are the segments of the
/// whole.
proof fn lemma_segments_of_joined(names: Seq<Seq<char>>)
    requires
        names.len() > 0,
        forall|i: int, j: int|
            0 <= i < names.len() && 0 <= j < names[i].len() ==> #[trigger] names[i][j] != '/',
    ensures
        segments(text::joined_text(names, seq!['/'])) == names,
    decreases names.len(),
{
    lemma_single_segment(names.last());
    if names.len() == 1 {
        assert(names == seq![names[0]]);
    } else {
        let init = names.drop_last();
        lemma_segments_of_joined(init);
        lemma_segments_at_separator(text::joined_text(init, seq!['/']), names.last());
        assert(init + seq![names.last()] == names);
    }
}

proof fn lemma_named_concat(a: Seq<Seq<char>>, b: Seq<Seq<char>>)
    ensures
        named(a + b) == named(a) + named(b),
    decreases b.len(),
{
    if b.len() == 0 {
        assert(a + b == a);
    } else {
        lemma_named_concat(a, b.drop_last());
        assert((a + b).drop_last() == a + b.drop_last());
        assert((a + b).last() == b.last());
    }
}

/// What `named` keeps is named, and was there before.
proof fn lemma_named_kept(all: Seq<Seq<char>>)
    ensures
        forall|i: int|
            0 <= i < named(all).len() ==> names_something(#[trigger] named(all)[i]) && all.contains(
                named(all)[i],
            ),
        named(named(all)) == named(all),
    decreases all.len(),
{
    if all.len() > 0 {
        lemma_named_kept(all.drop_last());
        let init = named(all.drop_last());
        assert forall|i: int| 0 <= i < named(all).len() implies all.contains(
            #[trigger] named(all)[i],
        ) by {
            if i < init.len() {
                let k = choose|k: int|
                    0 <= k < all.drop_last().len() && all.drop_last()[k] == init[i];
                assert(all[k] == named(all)[i]);
            } else {
                assert(all[all.len() - 1] == named(all)[i]);
            }
        }
        if names_something(all.last()) {
            assert(named(all).drop_last() == init);
        }
    }
}

/// Normalizing keeps what a path says: the same root, and the same named
/// segments in the same order, `..` among them.
pub proof fn law_normalizing_keeps_root_and_names(path: Seq<char>)
    ensures
        absolute(normalized(path)) == absolute(path),
        named(segments(normalized(path))) == named(segments(path)),
{
    let all = segments(path);
    let names = named(all);
    let body = text::joined_text(names, seq!['/']);
    lemma_named_kept(all);
    lemma_segments_hold_no_separator(path);
    assert forall|i: int, j: int|
        0 <= i < names.len() && 0 <= j < names[i].len() implies #[trigger] names[i][j] != '/' by {
        let k = choose|k: int| 0 <= k < all.len() && all[k] == names[i];
        assert(all[k][j] != '/');
    }
    if names.len() > 0 {
        lemma_segments_of_joined(names);
        lemma_joined_starts_with_first(names);
        assert(names[0][0] != '/');
    } else {
        assert(segments(body) == seq![Seq::<char>::empty()]);
        assert(seq![Seq::<char>::empty()].drop_last() == Seq::<Seq<char>>::empty());
        assert(named(segments(body)) == names);
    }
    if absolute(path) {
        let root: Seq<char> = Seq::empty();
        lemma_segments_at_separator(root, body);
        assert(root + seq!['/'] + body == seq!['/'] + body);
        lemma_named_concat(segments(root), segments(body));
        assert(segments(root).drop_last() == Seq::<Seq<char>>::empty());
        assert(named(Seq::<Seq<char>>::empty()) == Seq::<Seq<char>>::empty());
        assert(named(segments(root)) == Seq::<Seq<char>>::empty());
    } else {
        assert(Seq::<char>::empty() + body == body);
    }
}

/// Normalizing twice is normalizing once.
pub proof fn law_normalizing_is_idempotent(path: Seq<char>)
    ensures
        normalized(normalized(path)) == normalized(path),
{
    law_normalizing_keeps_root_and_names(path);
}

proof fn lemma_joined_starts_with_first(names: Seq<Seq<char>>)
    requires
        names.len() > 0,
        names[0].len() > 0,
    ensures
        text::joined_text(names, seq!['/']).len() > 0,
        text::joined_text(names, seq!['/'])[0] == names[0][0],
    decreases names.len(),
{
    if names.len() > 1 {
        lemma_joined_starts_with_first(names.drop_last());
    }
}

proof fn lemma_trimmed_is_prefix(path: Seq<char>, head: nat)
    requires
        head <= path.len(),
    ensures
        head <= trimmed(path, head).len(),
        trimmed(path, head).is_prefix_of(path),
    decreases path.len(),
{
    if path.len() > head {
        lemma_trimmed_is_prefix(path.drop_last(), head);
    }
}

proof fn lemma_without_last_is_prefix(path: Seq<char>, head: nat)
    requires
        head <= path.len(),
    ensures
        head <= without_last(path, head).len(),
        without_last(path, head).is_prefix_of(path),
    decreases path.len(),
{
    if path.len() > head {
        lemma_without_last_is_prefix(path.drop_last(), head);
    }
}

/// The directory that an absolute path lies in is absolute.
pub proof fn law_directories_of_absolute_paths_are_absolute(path: Seq<char>)
    requires
        absolute(path),
    ensures
        parent_of(path) matches Some(dir) ==> absolute(dir),
{
    let head = body_start(path);
    let whole = trimmed(path, head);
    lemma_trimmed_is_prefix(path, head);
    lemma_without_last_is_prefix(whole, head);
    lemma_trimmed_is_prefix(without_last(whole, head), head);
}

/// The segments of a path are the texts between its separators: none of them
/// holds a separator, and joined by separators they are the path again. No
/// other texts are.
pub proof fn law_segments_are_the_texts_between_separators(path: Seq<char>)
    ensures
        segments(path).len() > 0,
        forall|i: int, j: int|
            0 <= i < segments(path).len() && 0 <= j < segments(path)[i].len()
                ==> #[trigger] segments(path)[i][j] != '/',
        text::joined_text(segments(path), seq!['/']) == path,
    decreases path.len(),
{
    lemma_segments_nonempty(path);
    lemma_segments_hold_no_separator(path);
    if path.len() == 0 {
        assert(text::joined_text(segments(path), seq!['/']) =~= path);
    } else {
        let init = segments(path.drop_last());
        law_segments_are_the_texts_between_separators(path.drop_last());
        if path.last() == '/' {
            assert(init.push(Seq::empty()).drop_last() == init);
            assert(text::joined_text(segments(path), seq!['/']) =~= path);
        } else {
            let front = init.drop_last();
            let grown = init.last().push(path.last());
            assert(front.push(grown).drop_last() == front);
            assert(segments(path) == front.push(grown));
            lemma_segments_nonempty(path.drop_last());
            let shorter = text::joined_text(init, seq!['/']);
            assert(shorter.push(path.last()) =~= path);
            assert(text::joined_text(front.push(grown), seq!['/']) =~= shorter.push(path.last()));
        }
    }
}

/// A segment counts unless it is empty or a single dot, and nothing else
/// decides whether it does: the segments of two paths in a row that count are
/// those of the first that count, and those of the second.
pub proof fn law_empty_and_dot_segments_do_not_count(
    a: Seq<Seq<char>>,
    b: Seq<Seq<char>>,
    segment: Seq<char>,
)
    ensures
        named(a + b) == named(a) + named(b),
        segment.len() == 0 || segment == "."@ ==> named(seq![segment]) == Seq::<Seq<char>>::empty(),
        segment.len() > 0 && segment != "."@ ==> named(seq![segment]) == seq![segment],
{
    reveal_strlit(".");
    assert("."@ =~= seq!['.']);
    lemma_named_concat(a, b);
    assert(seq![segment].drop_last() =~= Seq::<Seq<char>>::empty());
    assert(named(Seq::<Seq<char>>::empty()) == Seq::<Seq<char>>::empty());
    assert(named(seq![segment]) =~= if names_something(segment) {
        seq![segment]
    } else {
        Seq::empty()
    });
}

/// A relative path seen from a directory leads on from there: it names what
/// the directory names, and what it names itself behind that.
pub proof fn law_joining_leads_on(base: Seq<char>, path: Seq<char>)
    requires
        !absolute(path),
    ensures
        absolute(joined_path(base, path)) == absolute(base),
        named(segments(joined_path(base, path))) == named(segments(base)) + named(segments(path)),
{
    let none = Seq::<Seq<char>>::empty();
    let blank: Seq<Seq<char>> = seq![Seq::empty()];
    assert(blank.drop_last() =~= none);
    assert(named(none) == none);
    assert(named(blank) == none);
    if base.len() == 0 {
        assert(base + path =~= path);
        assert(none + named(segments(path)) =~= named(segments(path)));
    } else if base.last() == '/' {
        let dir = base.drop_last();
        assert(base =~= dir + seq!['/'] + Seq::<char>::empty());
        assert(base + path =~= dir + seq!['/'] + path);
        lemma_segments_at_separator(dir, Seq::empty());
        lemma_segments_at_separator(dir, path);
        lemma_named_concat(segments(dir), blank);
        lemma_named_concat(segments(dir), segments(path));
        assert(named(segments(dir)) + none =~= named(segments(dir)));
    } else {
        lemma_segments_at_separator(base, path);
        lemma_named_concat(segments(base), segments(path));
    }
}

/// What is trimmed off the end of a path names nothing.
proof fn lemma_trimming_keeps_names(path: Seq<char>, head: nat)
    ensures
        named(segments(trimmed(path, head))) == named(segments(path)),
    decreases path.len(),
{
    if path.len() > head {
        let front = path.drop_last();
        let none = Seq::<Seq<char>>::empty();
        assert(named(none) == none);
        if path.last() == '/' {
            let blank: Seq<Seq<char>> = seq![Seq::empty()];
            assert(blank.drop_last() =~= none);
            assert(path =~= front + seq!['/'] + Seq::<char>::empty());
            lemma_segments_at_separator(front, Seq::empty());
            lemma_named_concat(segments(front), blank);
            assert(named(segments(front)) + none =~= named(segments(front)));
            lemma_trimming_keeps_names(front, head);
        } else if path.last() == '.' && path.len() >= 2 && path[path.len() - 2] == '/' {
            let dir = front.drop_last();
            let dot: Seq<char> = seq!['.'];
            let blank: Seq<Seq<char>> = seq![Seq::empty()];
            assert(blank.drop_last() =~= none);
            assert(seq![dot].drop_last() =~= none);
            assert(path =~= dir + seq!['/'] + dot);
            assert(front =~= dir + seq!['/'] + Seq::<char>::empty());
            lemma_single_segment(dot);
            lemma_segments_at_separator(dir, dot);
            lemma_segments_at_separator(dir, Seq::empty());
            lemma_named_concat(segments(dir), seq![dot]);
            lemma_named_concat(segments(dir), blank);
            lemma_trimming_keeps_names(front, head);
        }
    }
}

/// Nothing is left to trim off a trimmed path.
proof fn lemma_trimmed_ends_in_a_name(path: Seq<char>, head: nat)
    ensures
        ({
            let whole = trimmed(path, head);
            &&& whole.is_prefix_of(path)
            &&& whole.len() > head ==> whole.last() != '/' && !(whole.last() == '.' && whole.len()
                >= 2 && whole[whole.len() - 2] == '/')
            &&& whole.len() < path.len() && whole.len() > head ==> path[whole.len() as int] == '/'
        }),
    decreases path.len(),
{
    if path.len() > head {
        let front = path.drop_last();
        lemma_trimmed_ends_in_a_name(front, head);
        let whole = trimmed(path, head);
        if whole.len() < path.len() && whole.len() > head && whole.len() == front.len() {
            if path.last() != '/' {
                assert(whole =~= front);
            }
        }
    }
}

/// Taking off the last segment leaves what is in front of its separator, or the
/// head where there is none.
proof fn lemma_without_last(path: Seq<char>, head: nat)
    requires
        head <= path.len(),
    ensures
        ({
            let front = without_last(path, head);
            let n = front.len() as int;
            &&& head <= n <= path.len()
            &&& front == path.take(n)
            &&& forall|i: int| n < i < path.len() ==> #[trigger] path[i] != '/'
            &&& path.len() > head ==> n < path.len() && (path[n] == '/' || n == head)
        }),
    decreases path.len(),
{
    if path.len() <= head {
        assert(path.take(path.len() as int) =~= path);
    } else if path.last() == '/' {
        assert(path.drop_last() =~= path.take(path.len() - 1));
    } else {
        lemma_without_last(path.drop_last(), head);
        let front = without_last(path, head);
        assert(path.drop_last().take(front.len() as int) =~= path.take(front.len() as int));
        if front.len() < path.len() - 1 {
            assert(path.drop_last()[front.len() as int] == path[front.len() as int]);
        }
        assert forall|i: int| front.len() < i < path.len() implies #[trigger] path[i] != '/' by {
            if i < path.len() - 1 {
                assert(path.drop_last()[i] == path[i]);
            }
        }
    }
}

/// A trimmed path is its last name behind all others.
proof fn lemma_last_name(path: Seq<char>)
    requires
        trimmed(path, body_start(path)).len() > body_start(path),
    ensures
        ({
            let head = body_start(path);
            let whole = trimmed(path, head);
            let names = named(segments(whole));
            &&& names.len() > 0
            &&& named(segments(without_last(whole, head))) == names.drop_last()
        }),
{
    let head = body_start(path);
    let whole = trimmed(path, head);
    let none = Seq::<Seq<char>>::empty();
    assert(named(none) == none);
    lemma_trimmed_ends_in_a_name(path, head);
    lemma_without_last(whole, head);
    let front = without_last(whole, head);
    let n = front.len() as int;
    if n < whole.len() && whole[n] == '/' {
        let name = whole.skip(n + 1);
        assert(whole =~= front + seq!['/'] + name);
        assert forall|j: int| 0 <= j < name.len() implies name[j] != '/' by {
            assert(whole[n + 1 + j] != '/');
        }
        lemma_single_segment(name);
        lemma_segments_at_separator(front, name);
        lemma_named_concat(segments(front), seq![name]);
        assert(name.len() > 0);
        if name == seq!['.'] {
            assert(whole.last() == '.');
            assert(whole[whole.len() - 2] == '/');
        }
        assert(names_something(name));
        assert(seq![name].drop_last() =~= none);
        assert(named(seq![name]) =~= seq![name]);
        assert((named(segments(front)) + seq![name]).drop_last() =~= named(segments(front)));
    } else if absolute(path) {
        let name = whole.skip(1);
        assert(whole[0] == '/');
        assert(n == 1);
        let root: Seq<char> = Seq::empty();
        assert(whole =~= root + seq!['/'] + name);
        assert forall|j: int| 0 <= j < name.len() implies name[j] != '/' by {
            if j > 0 {
                assert(whole[1 + j] != '/');
            }
        }
        lemma_single_segment(name);
        lemma_segments_at_separator(root, name);
        lemma_segments_at_separator(root, root);
        assert(front =~= root + seq!['/'] + root);
        let blank: Seq<Seq<char>> = seq![root];
        assert(blank.drop_last() =~= none);
        lemma_named_concat(blank, seq![name]);
        lemma_named_concat(blank, blank);
        if name == seq!['.'] {
            assert(whole.last() == '.');
            assert(whole[whole.len() - 2] == '/');
        }
        assert(seq![name].drop_last() =~= none);
        assert(named(seq![name]) =~= seq![name]);
        assert(none + seq![name] =~= seq![name]);
    } else {
        assert(whole[0] == path[0]);
        if head == 1 {
            assert(whole[1] == path[1]);
            assert(whole[1] == '/');
            assert(n == 1);
        }
        assert(head == 0 && n == 0);
        assert forall|j: int| 0 <= j < whole.len() implies whole[j] != '/' by {
            if j > 0 {
                assert(whole[j] != '/');
            }
        }
        lemma_single_segment(whole);
        if whole == seq!['.'] {
            assert(path[0] == '.');
            assert(path.len() == 1 || path[1] == '/');
        }
        assert(seq![whole].drop_last() =~= none);
        assert(named(seq![whole]) =~= seq![whole]);
        assert(front =~= Seq::<char>::empty());
        let blank: Seq<Seq<char>> = seq![Seq::<char>::empty()];
        assert(blank.drop_last() =~= none);
        assert(segments(front) == blank);
    }
}

/// The directory that a path lies in is named by all its names but the last, and
/// absolute where the path is. Only a path without names lies in none, or in
/// the one that the empty path stands for.
pub proof fn law_directories_are_named_by_all_but_the_last_name(path: Seq<char>)
    ensures
        match parent_of(path) {
            Some(dir) => {
                &&& absolute(dir) == absolute(path)
                &&& named(segments(path)).len() > 0 ==> named(segments(dir)) == named(
                    segments(path),
                ).drop_last()
                &&& named(segments(path)).len() == 0 ==> dir.len() == 0
            },
            None => named(segments(path)).len() == 0,
        },
{
    let head = body_start(path);
    let whole = trimmed(path, head);
    let none = Seq::<Seq<char>>::empty();
    assert(named(none) == none);
    let blank: Seq<Seq<char>> = seq![Seq::<char>::empty()];
    assert(blank.drop_last() =~= none);
    lemma_trimming_keeps_names(path, head);
    lemma_trimmed_is_prefix(path, head);
    if whole.len() > head {
        let front = without_last(whole, head);
        lemma_last_name(path);
        lemma_trimming_keeps_names(front, head);
        lemma_without_last_is_prefix(whole, head);
        lemma_trimmed_is_prefix(front, head);
    } else if absolute(path) {
        assert(whole =~= seq!['/']);
        let root: Seq<char> = Seq::empty();
        assert(whole =~= root + seq!['/'] + root);
        lemma_segments_at_separator(root, root);
        lemma_named_concat(blank, blank);
    } else if head == 1 {
        let dot: Seq<char> = seq!['.'];
        assert(whole =~= dot);
        lemma_single_segment(dot);
        assert(seq![dot].drop_last() =~= none);
    } else {
        assert(whole =~= Seq::<char>::empty());
    }
}

/// Two texts of one path lead to the same place, and two absolute paths that do
/// are one path.
pub proof fn law_same_paths_lead_to_the_same_place(a: Seq<char>, b: Seq<char>)
    ensures
        same_path(a, a),
        same_path(a, b) == same_path(b, a),
        same_path(a, b) ==> absolute(a) == absolute(b) && named(segments(a)) == named(segments(b)),
        absolute(a) && absolute(b) && named(segments(a)) == named(segments(b)) ==> same_path(a, b),
{
}

} // verus!
