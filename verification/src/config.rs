//! The layout file: its data, and the resolution of the paths in it.

use vstd::prelude::*;

use crate::env;
use crate::env::EnvMap;
use crate::path;
use crate::path::{is_absolute, join_path};
use crate::text::{holds_text, same_text};

verus! {

/// What a pane waits for before the next one is built.
#[derive(Debug, PartialEq)]
pub struct WaitFor {
    /// The text to wait for in the pane's output.
    pub pattern: String,
    /// How long to wait, in milliseconds.
    pub timeout_ms: Option<u64>,
}

/// The mathematical value of a [`WaitFor`].
pub struct WaitForView {
    pub pattern: Seq<char>,
    pub timeout_ms: Option<u64>,
}

impl DeepView for WaitFor {
    type V = WaitForView;

    open spec fn deep_view(&self) -> WaitForView {
        WaitForView { pattern: self.pattern@, timeout_ms: self.timeout_ms }
    }
}

impl Clone for WaitFor {
    fn clone(&self) -> (copy: Self)
        ensures
            copy.deep_view() == self.deep_view(),
    {
        WaitFor { pattern: self.pattern.clone(), timeout_ms: self.timeout_ms }
    }
}

/// A decimal digit.
pub open spec fn digit(c: char) -> bool {
    48 <= c as int <= 57
}

/// Nothing but digits from `low` up to `high`.
pub open spec fn digits_between(text: Seq<char>, low: int, high: int) -> bool {
    forall|i: int| low <= i < high ==> digit(#[trigger] text[i])
}

/// Digits from `start` on, up to `point` or to the end, without a leading zero
/// that is not needed; behind a point there are digits that do not end in zero.
pub open spec fn decimal_up_to(text: Seq<char>, start: int, point: int) -> bool {
    &&& start < point <= text.len()
    &&& digits_between(text, start, point)
    &&& point == start + 1 || text[start] != '0'
    &&& point < text.len() ==> {
        &&& text[point] == '.'
        &&& point + 1 < text.len()
        &&& digits_between(text, point + 1, text.len() as int)
        &&& text.last() != '0'
    }
}

/// Where the digits start: behind the minus sign, where there is one.
pub open spec fn digits_start(text: Seq<char>) -> int {
    if text.len() > 0 && text[0] == '-' {
        1
    } else {
        0
    }
}

/// The shortest decimal text of a number, with a minus sign below zero, or
/// that of what is no number.
pub open spec fn decimal_form(text: Seq<char>) -> bool {
    ||| text == "NaN"@
    ||| text == "inf"@
    ||| text == "-inf"@
    ||| exists|point: int| #[trigger] decimal_up_to(text, digits_start(text), point)
}

/// A split ratio, as the shortest decimal text of its value: digits with a
/// fraction where there is one, no exponent, a minus sign below zero, and
/// `NaN`, `inf` or `-inf` for what is no number.
#[derive(Debug, PartialEq)]
pub struct Ratio {
    decimal: String,
}

impl DeepView for Ratio {
    type V = Seq<char>;

    closed spec fn deep_view(&self) -> Seq<char> {
        self.decimal@
    }
}

impl Clone for Ratio {
    fn clone(&self) -> (copy: Self)
        ensures
            copy.deep_view() == self.deep_view(),
    {
        proof {
            use_type_invariant(self);
        }
        Ratio { decimal: self.decimal.clone() }
    }
}

/// A decimal text of a value strictly between zero and one: nothing in front
/// of the point but one zero, and something other than zeros behind it.
pub open spec fn proper_fraction(decimal: Seq<char>) -> bool {
    &&& decimal.len() > 2
    &&& decimal[0] == '0'
    &&& decimal[1] == '.'
    &&& exists|i: int| 2 <= i < decimal.len() && #[trigger] decimal[i] != '0'
}

/// A ratio that a pane may not have. `NaN` is neither at most zero nor at
/// least one, so it passes.
pub open spec fn ratio_refused(decimal: Seq<char>) -> bool {
    decimal != "NaN"@ && !proper_fraction(decimal)
}

/// Where the digits that start at `start` end.
fn digits_end(text: &str, start: usize, len: usize) -> (end: usize)
    requires
        start <= len,
        len == text@.len(),
    ensures
        start <= end <= len,
        digits_between(text@, start as int, end as int),
        end < len ==> !digit(text@[end as int]),
{
    let mut end: usize = start;
    while end < len
        invariant
            start <= end <= len,
            len == text@.len(),
            digits_between(text@, start as int, end as int),
        decreases len - end,
    {
        let code: u32 = text.get_char(end) as u32;
        if code < 48 || code > 57 {
            return end;
        }
        end = end + 1;
    }
    end
}

/// Whether `text` is the shortest decimal text of something.
fn is_decimal(text: &str) -> (r: bool)
    ensures
        r == decimal_form(text@),
{
    if same_text(text, "NaN") || same_text(text, "inf") || same_text(text, "-inf") {
        return true;
    }
    let len: usize = text.unicode_len();
    let start: usize = if len > 0 && text.get_char(0) == '-' {
        1
    } else {
        0
    };
    assert(start == digits_start(text@));
    let point: usize = digits_end(text, start, len);
    proof {
        assert forall|other: int| #[trigger]
            decimal_up_to(text@, digits_start(text@), other) implies other == point by {
            if other < point {
                assert(digit(text@[other]));
            } else if other > point {
                assert(digit(text@[point as int]));
            }
        }
    }
    if point == start || (point > start + 1 && text.get_char(start) == '0') {
        return false;
    }
    if point == len {
        assert(decimal_up_to(text@, digits_start(text@), point as int));
        return true;
    }
    if text.get_char(point) != '.' || point + 1 >= len {
        return false;
    }
    let end: usize = digits_end(text, point + 1, len);
    let r: bool = end == len && text.get_char(len - 1) != '0';
    proof {
        if r {
            assert(decimal_up_to(text@, digits_start(text@), point as int));
        } else if end < len && decimal_up_to(text@, digits_start(text@), point as int) {
            assert(digit(text@[end as int]));
        }
    }
    r
}

impl Ratio {
    #[verifier::type_invariant]
    closed spec fn well_formed(self) -> bool {
        decimal_form(self.decimal@)
    }

    /// The ratio with this decimal text, if it is one.
    pub fn new(decimal: &str) -> (ratio: Option<Ratio>)
        ensures
            match ratio {
                Some(ratio) => decimal_form(decimal@) && ratio.deep_view() == decimal@,
                None => !decimal_form(decimal@),
            },
    {
        if is_decimal(decimal) {
            Some(Ratio { decimal: decimal.to_string() })
        } else {
            None
        }
    }

    /// The decimal text of the ratio.
    pub fn decimal(&self) -> (decimal: &str)
        ensures
            decimal@ == self.deep_view(),
            decimal_form(decimal@),
    {
        proof {
            use_type_invariant(self);
        }
        self.decimal.as_str()
    }

    /// Whether the ratio is at most zero or at least one.
    pub fn is_refused(&self) -> (r: bool)
        ensures
            r == ratio_refused(self.deep_view()),
    {
        let decimal: &str = self.decimal.as_str();
        if same_text(decimal, "NaN") {
            return false;
        }
        let len: usize = decimal.unicode_len();
        if len <= 2 || decimal.get_char(0) != '0' || decimal.get_char(1) != '.' {
            return true;
        }
        let mut i: usize = 2;
        while i < len
            invariant
                2 <= i <= len,
                len == decimal@.len(),
                decimal@ == self.decimal@,
                decimal@ != "NaN"@,
                decimal@[0] == '0' && decimal@[1] == '.',
                forall|k: int| 2 <= k < i ==> #[trigger] decimal@[k] == '0',
            decreases len - i,
        {
            if decimal.get_char(i) != '0' {
                return false;
            }
            i = i + 1;
        }
        true
    }
}

/// The size of one character cell of a terminal, in pixels.
#[derive(Debug, Clone, Copy, PartialEq)]
pub struct CellMetrics {
    pub width: u64,
    pub height: u64,
}

/// How many pixels each of `cells` cells in a row gets of `pixels`, if each gets
/// at least one.
pub open spec fn cell_side(cells: u64, pixels: u64) -> Option<u64> {
    if cells == 0 || pixels < cells {
        None
    } else {
        Some(pixels / cells)
    }
}

/// Cells are as large as they can be: together they fit into the pixels there
/// are, and would not if they were any larger.
pub proof fn law_cells_are_as_large_as_they_can_be(cells: u64, pixels: u64)
    ensures
        match cell_side(cells, pixels) {
            Some(side) => {
                &&& side >= 1
                &&& cells * side <= pixels
                &&& pixels < cells * (side + 1)
            },
            None => cells == 0 || pixels < cells,
        },
{
    if cells > 0 && pixels >= cells {
        let side = pixels / cells;
        vstd::arithmetic::div_mod::lemma_fundamental_div_mod(pixels as int, cells as int);
        vstd::arithmetic::div_mod::lemma_mod_bound(pixels as int, cells as int);
        assert(cells * (side + 1) == cells * side + cells) by (nonlinear_arith);
        assert(side >= 1) by (nonlinear_arith)
            requires
                pixels < cells * (side + 1),
                cells <= pixels,
                cells > 0,
        ;
    }
}

/// The size of one character cell of a terminal that is `cols` by `rows` cells
/// and `xpixel` by `ypixel` pixels large. `None` where the terminal does not
/// report a size from which every cell gets at least one pixel each way.
pub fn cell_metrics(cols: u64, rows: u64, xpixel: u64, ypixel: u64) -> (metrics: Option<
    CellMetrics,
>)
    ensures
        match metrics {
            Some(cell) => {
                &&& 0 < cols <= xpixel
                &&& 0 < rows <= ypixel
                &&& cell.width == xpixel / cols
                &&& cell.height == ypixel / rows
            },
            None => cols == 0 || rows == 0 || xpixel < cols || ypixel < rows,
        },
        match metrics {
            Some(cell) => {
                &&& cell_side(cols, xpixel) == Some(cell.width)
                &&& cell_side(rows, ypixel) == Some(cell.height)
            },
            None => cell_side(cols, xpixel) is None || cell_side(rows, ypixel) is None,
        },
{
    if cols == 0 || rows == 0 || xpixel < cols || ypixel < rows {
        None
    } else {
        Some(CellMetrics { width: xpixel / cols, height: ypixel / rows })
    }
}

/// The side of the previous pane on which a new one is split off.
#[derive(Debug, Clone, Copy, PartialEq, Eq, Structural)]
pub enum SplitDirection {
    Right,
    Down,
    /// Right of a wide pane, below a tall one.
    Auto,
}

impl DeepView for SplitDirection {
    type V = SplitDirection;

    open spec fn deep_view(&self) -> SplitDirection {
        *self
    }
}

impl Default for SplitDirection {
    fn default() -> (direction: Self)
        ensures
            direction == SplitDirection::Right,
    {
        SplitDirection::Right
    }
}

/// A pane of `cols` by `rows` cells that is at least as wide as it is tall:
/// in pixels where the cell size is known, else in cells.
pub open spec fn is_wide(cols: u64, rows: u64, metrics: Option<CellMetrics>) -> bool {
    match metrics {
        Some(cell) => cols * cell.width >= rows * cell.height,
        None => cols >= rows,
    }
}

impl SplitDirection {
    /// The direction in which a pane of `cols` by `rows` cells is split: the
    /// longer side for `Auto`, and otherwise the direction itself.
    pub fn for_pane(self, cols: u64, rows: u64, metrics: Option<CellMetrics>) -> (direction:
        SplitDirection)
        ensures
            direction == if self != SplitDirection::Auto {
                self
            } else if is_wide(cols, rows, metrics) {
                SplitDirection::Right
            } else {
                SplitDirection::Down
            },
    {
        match self {
            SplitDirection::Right => SplitDirection::Right,
            SplitDirection::Down => SplitDirection::Down,
            SplitDirection::Auto => {
                let wide: bool = match metrics {
                    Some(cell) => pixels(cols, cell.width) >= pixels(rows, cell.height),
                    None => cols >= rows,
                };
                if wide {
                    SplitDirection::Right
                } else {
                    SplitDirection::Down
                }
            },
        }
    }
}

/// `cells` times the size of one of them.
fn pixels(cells: u64, size: u64) -> (n: u128)
    ensures
        n == cells * size,
{
    assert(cells * size <= u128::MAX) by (nonlinear_arith)
        requires
            cells <= u64::MAX,
            size <= u64::MAX,
    ;
    cells as u128 * size as u128
}

/// A pane: one shell in a tab.
#[derive(Debug, Clone, PartialEq)]
pub struct Pane {
    /// The name by which a later pane of the tab can split off this one.
    pub id: Option<String>,
    /// The command to run once the pane exists.
    pub command: Option<String>,
    /// The working directory, seen from the tab's.
    pub cwd: Option<String>,
    /// Environment variables of this pane alone.
    pub env: EnvMap,
    /// Where the pane is split off.
    pub split: SplitDirection,
    /// The pane to split off, by its id; the previous one if there is none.
    pub from: Option<String>,
    /// How much of the space the pane gets.
    pub ratio: Option<Ratio>,
    /// What to wait for after the command has been started.
    pub wait_for: Option<WaitFor>,
    /// Whether the pane receives focus.
    pub focus: bool,
}

/// The mathematical value of a [`Pane`].
pub struct PaneView {
    pub id: Option<Seq<char>>,
    pub command: Option<Seq<char>>,
    pub cwd: Option<Seq<char>>,
    pub env: Seq<(Seq<char>, Seq<char>)>,
    pub split: SplitDirection,
    pub from: Option<Seq<char>>,
    pub ratio: Option<Seq<char>>,
    pub wait_for: Option<WaitForView>,
    pub focus: bool,
}

impl DeepView for Pane {
    type V = PaneView;

    open spec fn deep_view(&self) -> PaneView {
        PaneView {
            id: self.id.deep_view(),
            command: self.command.deep_view(),
            cwd: self.cwd.deep_view(),
            env: self.env.deep_view(),
            split: self.split,
            from: self.from.deep_view(),
            ratio: self.ratio.deep_view(),
            wait_for: self.wait_for.deep_view(),
            focus: self.focus,
        }
    }
}

/// A pane of which nothing is said.
pub open spec fn plain_pane() -> PaneView {
    PaneView {
        id: None,
        command: None,
        cwd: None,
        env: Seq::empty(),
        split: SplitDirection::Right,
        from: None,
        ratio: None,
        wait_for: None,
        focus: false,
    }
}

impl Default for Pane {
    fn default() -> (pane: Self)
        ensures
            pane.deep_view() == plain_pane(),
    {
        Pane {
            id: None,
            command: None,
            cwd: None,
            env: EnvMap::new(),
            split: SplitDirection::Right,
            from: None,
            ratio: None,
            wait_for: None,
            focus: false,
        }
    }
}

/// A tab: panes that share a screen.
#[derive(Debug, Clone, PartialEq)]
pub struct Tab {
    pub label: Option<String>,
    /// The working directory, seen from the workspace's root.
    pub cwd: Option<String>,
    pub panes: Vec<Pane>,
}

/// The mathematical value of a [`Tab`].
#[verifier::ext_equal]
pub struct TabView {
    pub label: Option<Seq<char>>,
    pub cwd: Option<Seq<char>>,
    pub panes: Seq<PaneView>,
}

impl DeepView for Tab {
    type V = TabView;

    open spec fn deep_view(&self) -> TabView {
        TabView {
            label: self.label.deep_view(),
            cwd: self.cwd.deep_view(),
            panes: self.panes.deep_view(),
        }
    }
}

impl Default for Tab {
    fn default() -> (tab: Self)
        ensures
            tab.deep_view() == (TabView { label: None, cwd: None, panes: Seq::empty() }),
    {
        let panes: Vec<Pane> = Vec::new();
        assert(panes.deep_view() =~= Seq::<PaneView>::empty());
        Tab { label: None, cwd: None, panes }
    }
}

/// A workspace: tabs around a common root directory.
#[derive(Debug, Clone, PartialEq)]
pub struct Workspace {
    pub name: String,
    pub root: Option<String>,
    pub env: EnvMap,
    pub tabs: Vec<Tab>,
    pub focus: bool,
}

/// The mathematical value of a [`Workspace`].
#[verifier::ext_equal]
pub struct WorkspaceView {
    pub name: Seq<char>,
    pub root: Option<Seq<char>>,
    pub env: Seq<(Seq<char>, Seq<char>)>,
    pub tabs: Seq<TabView>,
    pub focus: bool,
}

impl DeepView for Workspace {
    type V = WorkspaceView;

    open spec fn deep_view(&self) -> WorkspaceView {
        WorkspaceView {
            name: self.name@,
            root: self.root.deep_view(),
            env: self.env.deep_view(),
            tabs: self.tabs.deep_view(),
            focus: self.focus,
        }
    }
}

impl Default for Workspace {
    fn default() -> (ws: Self)
        ensures
            ws.deep_view() == (WorkspaceView {
                name: Seq::empty(),
                root: None,
                env: Seq::empty(),
                tabs: Seq::empty(),
                focus: false,
            }),
    {
        let tabs: Vec<Tab> = Vec::new();
        assert(tabs.deep_view() =~= Seq::<TabView>::empty());
        Workspace { name: String::new(), root: None, env: EnvMap::new(), tabs, focus: false }
    }
}

/// A layout: the workspaces to build, in order.
#[derive(Debug, PartialEq)]
pub struct SpreadFile {
    pub workspaces: Vec<Workspace>,
}

impl DeepView for SpreadFile {
    type V = Seq<WorkspaceView>;

    open spec fn deep_view(&self) -> Seq<WorkspaceView> {
        self.workspaces.deep_view()
    }
}

/// An entry that stands for the workspaces of another layout file.
#[derive(Debug, Clone, PartialEq)]
pub struct Include {
    /// A layout file, or a directory that holds one.
    pub target: String,
    /// Whether nothing is amiss where the target does not exist.
    pub optional: bool,
}

/// The mathematical value of an [`Include`].
pub struct IncludeView {
    pub target: Seq<char>,
    pub optional: bool,
}

impl DeepView for Include {
    type V = IncludeView;

    open spec fn deep_view(&self) -> IncludeView {
        IncludeView { target: self.target@, optional: self.optional }
    }
}

/// An entry of a layout file as it is written.
#[derive(Debug, Clone, PartialEq)]
pub enum WorkspaceEntry {
    Inline(Workspace),
    Include(Include),
}

/// The mathematical value of a [`WorkspaceEntry`].
pub enum WorkspaceEntryView {
    Inline(WorkspaceView),
    Include(IncludeView),
}

impl DeepView for WorkspaceEntry {
    type V = WorkspaceEntryView;

    open spec fn deep_view(&self) -> WorkspaceEntryView {
        match self {
            WorkspaceEntry::Inline(ws) => WorkspaceEntryView::Inline(ws.deep_view()),
            WorkspaceEntry::Include(inc) => WorkspaceEntryView::Include(inc.deep_view()),
        }
    }
}

/// A layout file as it is written, with the entries that stand for others.
#[derive(Debug, Clone, PartialEq)]
pub struct SpreadSource {
    pub workspaces: Vec<WorkspaceEntry>,
}

impl DeepView for SpreadSource {
    type V = Seq<WorkspaceEntryView>;

    open spec fn deep_view(&self) -> Seq<WorkspaceEntryView> {
        self.workspaces.deep_view()
    }
}

/// Why there is no configuration to work with.
#[derive(Debug, PartialEq)]
pub enum ConfigError {
    /// None of the places that were looked at holds a file.
    NotFound,
    /// The file could not be read.
    Io { path: String, message: String },
}

impl ConfigError {
    /// The error in words.
    pub open spec fn text(&self) -> Seq<char> {
        match self {
            ConfigError::NotFound => "no config file found"@,
            ConfigError::Io { path, message } => "failed to read config file "@ + path@ + ": "@
                + message@,
        }
    }

    /// The error in words.
    pub fn to_string(&self) -> (text: String)
        ensures
            text@ == self.text(),
    {
        match self {
            ConfigError::NotFound => "no config file found".to_string(),
            ConfigError::Io { path, message } => {
                let mut text: String = "failed to read config file ".to_string();
                text.append(path.as_str());
                text.append(": ");
                text.append(message.as_str());
                text
            },
        }
    }
}

/// The names a configuration file may have in its directory, best first.
pub open spec fn config_names() -> Seq<Seq<char>> {
    seq!["config.yaml"@, "config.yml"@]
}

/// The names a configuration file may have in its directory, best first.
pub fn config_file_names() -> (names: Vec<String>)
    ensures
        names.deep_view() == config_names(),
{
    let names: Vec<String> = vec!["config.yaml".to_string(), "config.yml".to_string()];
    assert(names.deep_view() =~= config_names());
    names
}

/// Each of `names`, in the directory `dir`.
pub open spec fn inside(dir: Seq<char>, names: Seq<Seq<char>>) -> Seq<Seq<char>> {
    names.map_values(|name: Seq<char>| path::joined_path(dir, name))
}

/// Adds each of `names`, in the directory `dir`, to `paths`.
pub fn push_inside(paths: &mut Vec<String>, dir: &str, names: &Vec<String>)
    ensures
        final(paths).deep_view() == old(paths).deep_view() + inside(dir@, names.deep_view()),
{
    let ghost earlier = paths.deep_view();
    let ghost added = inside(dir@, names.deep_view());
    let mut i: usize = 0;
    assert(earlier + added.take(0) == earlier);
    while i < names.len()
        invariant
            i <= names.len(),
            added == inside(dir@, names.deep_view()),
            paths.deep_view() == earlier + added.take(i as int),
        decreases names.len() - i,
    {
        let ghost before = paths.deep_view();
        let next: String = join_path(dir, names[i].as_str());
        paths.push(next);
        proof {
            assert(next@ == added[i as int]);
            assert(paths.deep_view() =~= before.push(added[i as int]));
            assert(added.take(i + 1) == added.take(i as int).push(added[i as int]));
        }
        i = i + 1;
    }
    assert(added.take(names.len() as int) == added);
}

/// The home directory that the environment names, empty if it names none.
pub open spec fn home_dir(variables: Seq<(Seq<char>, Seq<char>)>) -> Seq<char> {
    match env::lookup(variables, "HOME"@) {
        Some(home) => home,
        None => Seq::empty(),
    }
}

fn home(variables: &EnvMap) -> (dir: String)
    ensures
        dir@ == home_dir(variables.deep_view()),
{
    match variables.get("HOME") {
        Some(dir) => dir.to_string(),
        None => String::new(),
    }
}

/// The places where a configuration file may lie, best first: the plugin's
/// directory and the XDG directory where the environment names them, then the
/// home directory.
pub open spec fn config_candidates(variables: Seq<(Seq<char>, Seq<char>)>) -> Seq<Seq<char>> {
    let plugin = match env::lookup(variables, "HERDR_PLUGIN_CONFIG_DIR"@) {
        Some(dir) => inside(dir, config_names()),
        None => Seq::empty(),
    };
    let xdg = match env::lookup(variables, "XDG_CONFIG_HOME"@) {
        Some(dir) => inside(path::joined_path(dir, "herdr-spreader"@), config_names()),
        None => Seq::empty(),
    };
    let home = path::joined_path(
        path::joined_path(home_dir(variables), ".config"@),
        "herdr-spreader"@,
    );
    plugin + xdg + inside(home, config_names())
}

/// The places where a configuration file may lie, best first.
pub fn candidate_paths(variables: &EnvMap) -> (paths: Vec<String>)
    ensures
        paths.deep_view() == config_candidates(variables.deep_view()),
{
    let names: Vec<String> = config_file_names();
    let mut paths: Vec<String> = Vec::new();
    assert(paths.deep_view() =~= Seq::<Seq<char>>::empty());
    match variables.get("HERDR_PLUGIN_CONFIG_DIR") {
        Some(dir) => {
            push_inside(&mut paths, dir, &names);
            assert(Seq::<Seq<char>>::empty() + inside(dir@, config_names()) == inside(
                dir@,
                config_names(),
            ));
        },
        None => {},
    }
    let ghost plugin = paths.deep_view();
    match variables.get("XDG_CONFIG_HOME") {
        Some(dir) => {
            push_inside(&mut paths, join_path(dir, "herdr-spreader").as_str(), &names);
        },
        None => {
            assert(plugin + Seq::<Seq<char>>::empty() == plugin);
        },
    }
    let config: String = join_path(home(variables).as_str(), ".config");
    push_inside(&mut paths, join_path(config.as_str(), "herdr-spreader").as_str(), &names);
    paths
}

/// The first of `candidates` that `present` holds, if it holds one.
pub open spec fn first_present(candidates: Seq<Seq<char>>, present: Seq<Seq<char>>) -> Option<
    Seq<char>,
>
    decreases candidates.len(),
{
    if candidates.len() == 0 {
        None
    } else if present.contains(candidates[0]) {
        Some(candidates[0])
    } else {
        first_present(candidates.skip(1), present)
    }
}

/// What is found is a candidate that is there, and no better one is.
pub proof fn law_first_present_is_the_best(candidates: Seq<Seq<char>>, present: Seq<Seq<char>>)
    ensures
        match first_present(candidates, present) {
            Some(found) => exists|i: int|
                0 <= i < candidates.len() && #[trigger] candidates[i] == found && present.contains(
                    found,
                ) && forall|j: int| 0 <= j < i ==> !present.contains(#[trigger] candidates[j]),
            None => forall|j: int|
                0 <= j < candidates.len() ==> !present.contains(#[trigger] candidates[j]),
        },
    decreases candidates.len(),
{
    if candidates.len() > 0 && !present.contains(candidates[0]) {
        let rest = candidates.skip(1);
        law_first_present_is_the_best(rest, present);
        match first_present(rest, present) {
            Some(found) => {
                let i = choose|i: int|
                    0 <= i < rest.len() && #[trigger] rest[i] == found && forall|j: int|
                        0 <= j < i ==> !present.contains(#[trigger] rest[j]);
                assert(candidates[i + 1] == found);
                assert forall|j: int| 0 <= j < i + 1 implies !present.contains(
                    #[trigger] candidates[j],
                ) by {
                    if j > 0 {
                        assert(candidates[j] == rest[j - 1]);
                    }
                }
            },
            None => {
                assert forall|j: int| 0 <= j < candidates.len() implies !present.contains(
                    #[trigger] candidates[j],
                ) by {
                    if j > 0 {
                        assert(candidates[j] == rest[j - 1]);
                    }
                }
            },
        }
    }
}

/// The first of `candidates` that exists: that is one of the paths in
/// `present`, which are those of them that exist.
pub fn find_first_existing(candidates: &Vec<String>, present: &Vec<String>) -> (found: Option<
    String,
>)
    ensures
        found.deep_view() == first_present(candidates.deep_view(), present.deep_view()),
{
    let ghost all = candidates.deep_view();
    let mut i: usize = 0;
    assert(all.skip(0) == all);
    while i < candidates.len()
        invariant
            i <= candidates.len(),
            all == candidates.deep_view(),
            first_present(all, present.deep_view()) == first_present(
                all.skip(i as int),
                present.deep_view(),
            ),
        decreases candidates.len() - i,
    {
        assert(all.skip(i as int)[0] == all[i as int]);
        if holds_text(present, candidates[i].as_str()) {
            return Some(candidates[i].clone());
        }
        assert(all.skip(i as int).skip(1) == all.skip(i + 1));
        i = i + 1;
    }
    None
}

/// The configuration file to use, if there is one.
pub open spec fn chosen_config(
    explicit: Option<Seq<char>>,
    variables: Seq<(Seq<char>, Seq<char>)>,
    present: Seq<Seq<char>>,
) -> Option<Seq<char>> {
    match explicit {
        Some(asked) => Some(asked),
        None => first_present(config_candidates(variables), present),
    }
}

/// The configuration that was asked for is used, whether or not it exists. Where
/// none was, it is the best one that exists.
pub proof fn law_which_configuration_is_used(
    explicit: Option<Seq<char>>,
    variables: Seq<(Seq<char>, Seq<char>)>,
    present: Seq<Seq<char>>,
)
    ensures
        ({
            let candidates = config_candidates(variables);
            let chosen = chosen_config(explicit, variables, present);
            match explicit {
                Some(asked) => chosen == Some(asked),
                None => match chosen {
                    Some(found) => exists|i: int|
                        0 <= i < candidates.len() && #[trigger] candidates[i] == found
                            && present.contains(found) && forall|j: int|
                            0 <= j < i ==> !present.contains(#[trigger] candidates[j]),
                    None => forall|j: int|
                        0 <= j < candidates.len() ==> !present.contains(#[trigger] candidates[j]),
                },
            }
        }),
{
    law_first_present_is_the_best(config_candidates(variables), present);
}

/// The configuration file to use: the one that was asked for, else the first
/// candidate that exists. `present` holds those of the
/// [`candidate_paths`] that exist.
pub fn resolve_config_path(
    explicit: Option<String>,
    variables: &EnvMap,
    present: &Vec<String>,
) -> (r: Result<String, ConfigError>)
    ensures
        match (
            explicit,
            first_present(config_candidates(variables.deep_view()), present.deep_view()),
        ) {
            (Some(asked), _) => r == Ok::<String, ConfigError>(asked),
            (None, Some(found)) => r is Ok && r->Ok_0@ == found,
            (None, None) => r == Err::<String, ConfigError>(ConfigError::NotFound),
        },
        match chosen_config(explicit.deep_view(), variables.deep_view(), present.deep_view()) {
            Some(path) => r is Ok && r->Ok_0@ == path,
            None => r is Err,
        },
{
    if let Some(asked) = explicit {
        return Ok(asked);
    }
    match find_first_existing(&candidate_paths(variables), present) {
        Some(found) => Ok(found),
        None => Err(ConfigError::NotFound),
    }
}

/// A path with a leading `~` segment replaced by the home directory.
pub open spec fn expanded(raw: Seq<char>, variables: Seq<(Seq<char>, Seq<char>)>) -> Seq<char> {
    if raw == "~"@ {
        home_dir(variables)
    } else if raw.len() >= 2 && raw[0] == '~' && raw[1] == '/' {
        path::joined_path(home_dir(variables), raw.skip(2))
    } else {
        raw
    }
}

/// `raw` with a leading `~` segment replaced by the home directory.
pub fn expand_tilde(raw: &str, variables: &EnvMap) -> (r: String)
    ensures
        r@ == expanded(raw@, variables.deep_view()),
{
    if same_text(raw, "~") {
        return home(variables);
    }
    let len: usize = raw.unicode_len();
    if len >= 2 && raw.get_char(0) == '~' && raw.get_char(1) == '/' {
        join_path(home(variables).as_str(), raw.substring_char(2, len))
    } else {
        raw.to_string()
    }
}

/// `raw` as an absolute path: with `~` expanded, and seen from `cwd` if it is
/// still relative.
pub fn expand_root_path(raw: &str, variables: &EnvMap, cwd: &str) -> (r: String)
    ensures
        r@ == path::joined_path(cwd@, expanded(raw@, variables.deep_view())),
{
    let expanded: String = expand_tilde(raw, variables);
    if is_absolute(expanded.as_str()) {
        expanded
    } else {
        join_path(cwd, expanded.as_str())
    }
}

/// An optional working directory with `~` expanded.
pub open spec fn expanded_cwd(
    cwd: Option<Seq<char>>,
    variables: Seq<(Seq<char>, Seq<char>)>,
) -> Option<Seq<char>> {
    match cwd {
        Some(cwd) => Some(expanded(cwd, variables)),
        None => None,
    }
}

fn expand_cwd(cwd: &Option<String>, variables: &EnvMap) -> (r: Option<String>)
    ensures
        r.deep_view() == expanded_cwd(cwd.deep_view(), variables.deep_view()),
{
    match cwd {
        Some(cwd) => Some(expand_tilde(cwd.as_str(), variables)),
        None => None,
    }
}

/// A pane with its working directory expanded.
pub open spec fn resolved_pane(pane: PaneView, variables: Seq<(Seq<char>, Seq<char>)>) -> PaneView {
    PaneView { cwd: expanded_cwd(pane.cwd, variables), ..pane }
}

/// A tab with its working directory, and those of its panes, expanded.
pub open spec fn resolved_tab(tab: TabView, variables: Seq<(Seq<char>, Seq<char>)>) -> TabView {
    TabView {
        label: tab.label,
        cwd: expanded_cwd(tab.cwd, variables),
        panes: tab.panes.map_values(|pane: PaneView| resolved_pane(pane, variables)),
    }
}

/// The root of a workspace: the one it names, seen from `cwd`, or `cwd`.
pub open spec fn resolved_root(
    root: Option<Seq<char>>,
    variables: Seq<(Seq<char>, Seq<char>)>,
    cwd: Seq<char>,
) -> Seq<char> {
    match root {
        Some(root) => path::joined_path(cwd, expanded(root, variables)),
        None => cwd,
    }
}

/// A workspace with its root made absolute and every `~` expanded. Everything
/// else stays as it is.
pub open spec fn resolved_workspace(
    ws: WorkspaceView,
    variables: Seq<(Seq<char>, Seq<char>)>,
    cwd: Seq<char>,
) -> WorkspaceView {
    WorkspaceView {
        name: ws.name,
        root: Some(resolved_root(ws.root, variables, cwd)),
        env: ws.env,
        tabs: ws.tabs.map_values(|tab: TabView| resolved_tab(tab, variables)),
        focus: ws.focus,
    }
}

fn resolve_pane(pane: &Pane, variables: &EnvMap) -> (r: Pane)
    ensures
        r.deep_view() == resolved_pane(pane.deep_view(), variables.deep_view()),
{
    Pane {
        id: pane.id.clone(),
        command: pane.command.clone(),
        cwd: expand_cwd(&pane.cwd, variables),
        env: pane.env.clone(),
        split: pane.split,
        from: pane.from.clone(),
        ratio: pane.ratio.clone(),
        wait_for: pane.wait_for.clone(),
        focus: pane.focus,
    }
}

fn resolve_tab(tab: &Tab, variables: &EnvMap) -> (r: Tab)
    ensures
        r.deep_view() == resolved_tab(tab.deep_view(), variables.deep_view()),
{
    let mut panes: Vec<Pane> = Vec::new();
    let mut i: usize = 0;
    while i < tab.panes.len()
        invariant
            i <= tab.panes.len(),
            panes.len() == i,
            forall|k: int|
                0 <= k < i ==> (#[trigger] panes[k]).deep_view() == resolved_pane(
                    tab.panes[k].deep_view(),
                    variables.deep_view(),
                ),
        decreases tab.panes.len() - i,
    {
        panes.push(resolve_pane(&tab.panes[i], variables));
        i = i + 1;
    }
    assert(panes.deep_view() =~= resolved_tab(tab.deep_view(), variables.deep_view()).panes);
    Tab { label: tab.label.clone(), cwd: expand_cwd(&tab.cwd, variables), panes }
}

/// `ws` with its root made absolute and every `~` expanded. Without a root it
/// gets `cwd`, so that every relative working directory has an absolute base.
pub fn resolve_workspace_paths(ws: &Workspace, variables: &EnvMap, cwd: &str) -> (r: Workspace)
    ensures
        r.deep_view() == resolved_workspace(ws.deep_view(), variables.deep_view(), cwd@),
{
    let root: String = match &ws.root {
        Some(root) => expand_root_path(root.as_str(), variables, cwd),
        None => cwd.to_string(),
    };
    let mut tabs: Vec<Tab> = Vec::new();
    let mut i: usize = 0;
    while i < ws.tabs.len()
        invariant
            i <= ws.tabs.len(),
            tabs.len() == i,
            forall|k: int|
                0 <= k < i ==> (#[trigger] tabs[k]).deep_view() == resolved_tab(
                    ws.tabs[k].deep_view(),
                    variables.deep_view(),
                ),
        decreases ws.tabs.len() - i,
    {
        tabs.push(resolve_tab(&ws.tabs[i], variables));
        i = i + 1;
    }
    assert(tabs.deep_view() =~= resolved_workspace(
        ws.deep_view(),
        variables.deep_view(),
        cwd@,
    ).tabs);
    Workspace {
        name: ws.name.clone(),
        root: Some(root),
        env: ws.env.clone(),
        tabs,
        focus: ws.focus,
    }
}

/// The workspaces, each resolved on its own against the same directory.
pub open spec fn resolved_file(
    file: Seq<WorkspaceView>,
    variables: Seq<(Seq<char>, Seq<char>)>,
    cwd: Seq<char>,
) -> Seq<WorkspaceView> {
    file.map_values(|ws: WorkspaceView| resolved_workspace(ws, variables, cwd))
}

/// `file` with the paths of every workspace resolved against `cwd`.
#[must_use]
pub fn resolve_paths(file: &SpreadFile, variables: &EnvMap, cwd: &str) -> (r: SpreadFile)
    ensures
        r.deep_view() == resolved_file(file.deep_view(), variables.deep_view(), cwd@),
{
    let mut workspaces: Vec<Workspace> = Vec::new();
    let mut i: usize = 0;
    while i < file.workspaces.len()
        invariant
            i <= file.workspaces.len(),
            workspaces.len() == i,
            forall|k: int|
                0 <= k < i ==> (#[trigger] workspaces[k]).deep_view() == resolved_workspace(
                    file.workspaces[k].deep_view(),
                    variables.deep_view(),
                    cwd@,
                ),
        decreases file.workspaces.len() - i,
    {
        workspaces.push(resolve_workspace_paths(&file.workspaces[i], variables, cwd));
        i = i + 1;
    }
    assert(workspaces.deep_view() =~= resolved_file(file.deep_view(), variables.deep_view(), cwd@));
    SpreadFile { workspaces }
}

/// Resolved against an absolute directory, every workspace has an absolute
/// root, whatever the file and the environment say.
pub proof fn law_resolved_roots_are_absolute(
    file: Seq<WorkspaceView>,
    variables: Seq<(Seq<char>, Seq<char>)>,
    cwd: Seq<char>,
)
    requires
        path::absolute(cwd),
    ensures
        forall|i: int|
            0 <= i < file.len() ==> {
                let root = (#[trigger] resolved_file(file, variables, cwd)[i]).root;
                root is Some && path::absolute(root->0)
            },
{
}

} // verus!
