//! Application configuration: defaults, the column list editing the
//! Setup screen offers, and the settings file's JSON form.

use vstd::prelude::*;
use std::collections::HashSet;
use crate::bytes::str_eq;
use crate::json::{Value, lookup};
use crate::text::string_of;

verus! {

/// Meter display mode
#[derive(Debug, Clone, Copy, PartialEq, Eq, Structural)]
pub enum MeterMode {
    Bar,
    Text,
    Graph,
    Hidden,
}

impl Default for MeterMode {
    fn default() -> (r: MeterMode)
        ensures
            r == MeterMode::Bar,
    {
        MeterMode::Bar
    }
}

impl MeterMode {
    pub open spec fn spec_as_str(self) -> Seq<char> {
        match self {
            MeterMode::Bar => "Bar"@,
            MeterMode::Text => "Text"@,
            MeterMode::Graph => "Graph"@,
            MeterMode::Hidden => "Hidden"@,
        }
    }

    /// The mode a stored name stands for; unknown names read as Bar.
    pub open spec fn spec_from_str(s: Seq<char>) -> MeterMode {
        if s == "Text"@ {
            MeterMode::Text
        } else if s == "Graph"@ {
            MeterMode::Graph
        } else if s == "Hidden"@ {
            MeterMode::Hidden
        } else {
            MeterMode::Bar
        }
    }

    pub open spec fn spec_next(self) -> MeterMode {
        match self {
            MeterMode::Bar => MeterMode::Text,
            MeterMode::Text => MeterMode::Graph,
            MeterMode::Graph => MeterMode::Hidden,
            MeterMode::Hidden => MeterMode::Bar,
        }
    }

    pub fn as_str(self) -> (r: &'static str)
        ensures
            r@ == self.spec_as_str(),
    {
        match self {
            MeterMode::Bar => "Bar",
            MeterMode::Text => "Text",
            MeterMode::Graph => "Graph",
            MeterMode::Hidden => "Hidden",
        }
    }

    pub fn from_str(s: &str) -> (r: MeterMode)
        ensures
            r == Self::spec_from_str(s@),
    {
        if str_eq(s, "Text") {
            MeterMode::Text
        } else if str_eq(s, "Graph") {
            MeterMode::Graph
        } else if str_eq(s, "Hidden") {
            MeterMode::Hidden
        } else {
            MeterMode::Bar
        }
    }

    /// Cycle to the next meter mode
    pub fn next(self) -> (r: MeterMode)
        ensures
            r == self.spec_next(),
    {
        match self {
            MeterMode::Bar => MeterMode::Text,
            MeterMode::Text => MeterMode::Graph,
            MeterMode::Graph => MeterMode::Hidden,
            MeterMode::Hidden => MeterMode::Bar,
        }
    }
}
/// The stored meter mode names, character by character.
proof fn lemma_mode_names_spelled()
    ensures
        "Bar"@.len() == 3,
        "Bar"@[0] == 'B',
        "Bar"@[1] == 'a',
        "Bar"@[2] == 'r',
        "Text"@.len() == 4,
        "Text"@[0] == 'T',
        "Text"@[1] == 'e',
        "Text"@[2] == 'x',
        "Text"@[3] == 't',
        "Graph"@.len() == 5,
        "Graph"@[0] == 'G',
        "Graph"@[1] == 'r',
        "Graph"@[2] == 'a',
        "Graph"@[3] == 'p',
        "Graph"@[4] == 'h',
        "Hidden"@.len() == 6,
        "Hidden"@[0] == 'H',
        "Hidden"@[1] == 'i',
        "Hidden"@[2] == 'd',
        "Hidden"@[3] == 'd',
        "Hidden"@[4] == 'e',
        "Hidden"@[5] == 'n',
{
    reveal_strlit("Bar");
    reveal_strlit("Text");
    reveal_strlit("Graph");
    reveal_strlit("Hidden");
}

/// Every mode reads back from its stored name.
pub proof fn meter_mode_name_round_trip(m: MeterMode)
    ensures
        MeterMode::spec_from_str(m.spec_as_str()) == m,
{
    lemma_mode_names_spelled();
}

/// Cycling visits the four modes in turn and returns after four steps.
pub proof fn meter_mode_cycle(m: MeterMode)
    ensures
        m.spec_next() != m,
        m.spec_next().spec_next() != m,
        m.spec_next().spec_next().spec_next() != m,
        m.spec_next().spec_next().spec_next().spec_next() == m,
{
}

/// Color scheme of the interface.
#[derive(Debug, Clone, Copy, PartialEq, Eq, Structural)]
pub enum ColorScheme {
    Default,
    Monochrome,
    BlackOnWhite,
    LightTerminal,
    Midnight,
    Blacknight,
    BrokenGray,
    Nord,
}

impl ColorScheme {
    pub open spec fn spec_as_str(self) -> Seq<char> {
        match self {
            ColorScheme::Default => "Default"@,
            ColorScheme::Monochrome => "Monochrome"@,
            ColorScheme::BlackOnWhite => "Black on White"@,
            ColorScheme::LightTerminal => "Light Terminal"@,
            ColorScheme::Midnight => "Midnight"@,
            ColorScheme::Blacknight => "Blacknight"@,
            ColorScheme::BrokenGray => "Broken Gray"@,
            ColorScheme::Nord => "Nord"@,
        }
    }

    /// The scheme a stored name stands for; unknown names read as Default.
    pub open spec fn spec_from_str(s: Seq<char>) -> ColorScheme {
        if s == "Monochrome"@ {
            ColorScheme::Monochrome
        } else if s == "Black on White"@ {
            ColorScheme::BlackOnWhite
        } else if s == "Light Terminal"@ {
            ColorScheme::LightTerminal
        } else if s == "Midnight"@ {
            ColorScheme::Midnight
        } else if s == "Blacknight"@ {
            ColorScheme::Blacknight
        } else if s == "Broken Gray"@ {
            ColorScheme::BrokenGray
        } else if s == "Nord"@ {
            ColorScheme::Nord
        } else {
            ColorScheme::Default
        }
    }

    /// All schemes in menu order.
    pub open spec fn spec_all() -> Seq<ColorScheme> {
        seq![
            ColorScheme::Default,
            ColorScheme::Monochrome,
            ColorScheme::BlackOnWhite,
            ColorScheme::LightTerminal,
            ColorScheme::Midnight,
            ColorScheme::Blacknight,
            ColorScheme::BrokenGray,
            ColorScheme::Nord,
        ]
    }

    pub fn all() -> (r: &'static [ColorScheme])
        ensures
            r@ == Self::spec_all(),
    {
        &[
            ColorScheme::Default,
            ColorScheme::Monochrome,
            ColorScheme::BlackOnWhite,
            ColorScheme::LightTerminal,
            ColorScheme::Midnight,
            ColorScheme::Blacknight,
            ColorScheme::BrokenGray,
            ColorScheme::Nord,
        ]
    }

    pub fn as_str(self) -> (r: &'static str)
        ensures
            r@ == self.spec_as_str(),
    {
        match self {
            ColorScheme::Default => "Default",
            ColorScheme::Monochrome => "Monochrome",
            ColorScheme::BlackOnWhite => "Black on White",
            ColorScheme::LightTerminal => "Light Terminal",
            ColorScheme::Midnight => "Midnight",
            ColorScheme::Blacknight => "Blacknight",
            ColorScheme::BrokenGray => "Broken Gray",
            ColorScheme::Nord => "Nord",
        }
    }

    pub fn from_str(s: &str) -> (r: ColorScheme)
        ensures
            r == Self::spec_from_str(s@),
    {
        if str_eq(s, "Monochrome") {
            ColorScheme::Monochrome
        } else if str_eq(s, "Black on White") {
            ColorScheme::BlackOnWhite
        } else if str_eq(s, "Light Terminal") {
            ColorScheme::LightTerminal
        } else if str_eq(s, "Midnight") {
            ColorScheme::Midnight
        } else if str_eq(s, "Blacknight") {
            ColorScheme::Blacknight
        } else if str_eq(s, "Broken Gray") {
            ColorScheme::BrokenGray
        } else if str_eq(s, "Nord") {
            ColorScheme::Nord
        } else {
            ColorScheme::Default
        }
    }
}

/// The stored scheme names, character by character.
proof fn lemma_scheme_names_spelled()
    ensures
        "Default"@.len() == 7,
        "Default"@[0] == 'D',
        "Default"@[1] == 'e',
        "Default"@[2] == 'f',
        "Default"@[3] == 'a',
        "Default"@[4] == 'u',
        "Default"@[5] == 'l',
        "Default"@[6] == 't',
        "Monochrome"@.len() == 10,
        "Monochrome"@[0] == 'M',
        "Monochrome"@[1] == 'o',
        "Monochrome"@[2] == 'n',
        "Monochrome"@[3] == 'o',
        "Monochrome"@[4] == 'c',
        "Monochrome"@[5] == 'h',
        "Monochrome"@[6] == 'r',
        "Monochrome"@[7] == 'o',
        "Monochrome"@[8] == 'm',
        "Monochrome"@[9] == 'e',
        "Black on White"@.len() == 14,
        "Black on White"@[0] == 'B',
        "Black on White"@[1] == 'l',
        "Black on White"@[2] == 'a',
        "Black on White"@[3] == 'c',
        "Black on White"@[4] == 'k',
        "Black on White"@[5] == ' ',
        "Black on White"@[6] == 'o',
        "Black on White"@[7] == 'n',
        "Black on White"@[8] == ' ',
        "Black on White"@[9] == 'W',
        "Black on White"@[10] == 'h',
        "Black on White"@[11] == 'i',
        "Black on White"@[12] == 't',
        "Black on White"@[13] == 'e',
        "Light Terminal"@.len() == 14,
        "Light Terminal"@[0] == 'L',
        "Light Terminal"@[1] == 'i',
        "Light Terminal"@[2] == 'g',
        "Light Terminal"@[3] == 'h',
        "Light Terminal"@[4] == 't',
        "Light Terminal"@[5] == ' ',
        "Light Terminal"@[6] == 'T',
        "Light Terminal"@[7] == 'e',
        "Light Terminal"@[8] == 'r',
        "Light Terminal"@[9] == 'm',
        "Light Terminal"@[10] == 'i',
        "Light Terminal"@[11] == 'n',
        "Light Terminal"@[12] == 'a',
        "Light Terminal"@[13] == 'l',
        "Midnight"@.len() == 8,
        "Midnight"@[0] == 'M',
        "Midnight"@[1] == 'i',
        "Midnight"@[2] == 'd',
        "Midnight"@[3] == 'n',
        "Midnight"@[4] == 'i',
        "Midnight"@[5] == 'g',
        "Midnight"@[6] == 'h',
        "Midnight"@[7] == 't',
        "Blacknight"@.len() == 10,
        "Blacknight"@[0] == 'B',
        "Blacknight"@[1] == 'l',
        "Blacknight"@[2] == 'a',
        "Blacknight"@[3] == 'c',
        "Blacknight"@[4] == 'k',
        "Blacknight"@[5] == 'n',
        "Blacknight"@[6] == 'i',
        "Blacknight"@[7] == 'g',
        "Blacknight"@[8] == 'h',
        "Blacknight"@[9] == 't',
        "Broken Gray"@.len() == 11,
        "Broken Gray"@[0] == 'B',
        "Broken Gray"@[1] == 'r',
        "Broken Gray"@[2] == 'o',
        "Broken Gray"@[3] == 'k',
        "Broken Gray"@[4] == 'e',
        "Broken Gray"@[5] == 'n',
        "Broken Gray"@[6] == ' ',
        "Broken Gray"@[7] == 'G',
        "Broken Gray"@[8] == 'r',
        "Broken Gray"@[9] == 'a',
        "Broken Gray"@[10] == 'y',
        "Nord"@.len() == 4,
        "Nord"@[0] == 'N',
        "Nord"@[1] == 'o',
        "Nord"@[2] == 'r',
        "Nord"@[3] == 'd',
{
    reveal_strlit("Default");
    reveal_strlit("Monochrome");
    reveal_strlit("Black on White");
    reveal_strlit("Light Terminal");
    reveal_strlit("Midnight");
    reveal_strlit("Blacknight");
    reveal_strlit("Broken Gray");
    reveal_strlit("Nord");
}

/// Every scheme reads back from its stored name.
pub proof fn color_scheme_name_round_trip(c: ColorScheme)
    ensures
        ColorScheme::spec_from_str(c.spec_as_str()) == c,
{
    lemma_scheme_names_spelled();
}

/// The default process-list columns.
pub open spec fn default_columns() -> Seq<Seq<char>> {
    seq![
        "PID"@,
        "USER"@,
        "PRI"@,
        "CLASS"@,
        "THR"@,
        "VIRT"@,
        "RES"@,
        "SHR"@,
        "S"@,
        "CPU%"@,
        "MEM%"@,
        "TIME+"@,
        "Command"@,
    ]
}

/// Application configuration
#[derive(Debug)]
pub struct Config {
    pub refresh_rate_ms: u64,
    pub tree_view_default: bool,
    pub color_scheme: ColorScheme,
    pub show_kernel_threads: bool,
    pub show_user_threads: bool,
    pub show_program_path: bool,
    pub highlight_running: bool,
    pub highlight_large_numbers: bool,
    pub highlight_new_processes: bool,
    pub highlight_duration_ms: u64,
    pub highlight_basename: bool,
    pub show_cpu_meters: bool,
    pub show_memory_meter: bool,
    pub show_swap_meter: bool,
    pub show_tasks_meter: bool,
    pub show_uptime_meter: bool,
    pub show_load_average: bool,
    pub show_network_io: bool,
    pub show_disk_io: bool,
    pub show_clock: bool,
    pub show_hostname: bool,
    pub show_battery: bool,
    pub cpu_meter_mode: MeterMode,
    pub memory_meter_mode: MeterMode,
    pub visible_columns: Vec<String>,
    pub mouse_enabled: bool,
    pub readonly: bool,
    pub confirm_kill: bool,
    pub collapsed_pids: HashSet<u32>,
}

/// `a` and `b` agree on every setting but the visible columns.
pub open spec fn same_settings(a: Config, b: Config) -> bool {
    &&& a.refresh_rate_ms == b.refresh_rate_ms
    &&& a.tree_view_default == b.tree_view_default
    &&& a.color_scheme == b.color_scheme
    &&& a.show_kernel_threads == b.show_kernel_threads
    &&& a.show_user_threads == b.show_user_threads
    &&& a.show_program_path == b.show_program_path
    &&& a.highlight_running == b.highlight_running
    &&& a.highlight_large_numbers == b.highlight_large_numbers
    &&& a.highlight_new_processes == b.highlight_new_processes
    &&& a.highlight_duration_ms == b.highlight_duration_ms
    &&& a.highlight_basename == b.highlight_basename
    &&& a.show_cpu_meters == b.show_cpu_meters
    &&& a.show_memory_meter == b.show_memory_meter
    &&& a.show_swap_meter == b.show_swap_meter
    &&& a.show_tasks_meter == b.show_tasks_meter
    &&& a.show_uptime_meter == b.show_uptime_meter
    &&& a.show_load_average == b.show_load_average
    &&& a.show_network_io == b.show_network_io
    &&& a.show_disk_io == b.show_disk_io
    &&& a.show_clock == b.show_clock
    &&& a.show_hostname == b.show_hostname
    &&& a.show_battery == b.show_battery
    &&& a.cpu_meter_mode == b.cpu_meter_mode
    &&& a.memory_meter_mode == b.memory_meter_mode
    &&& a.mouse_enabled == b.mouse_enabled
    &&& a.readonly == b.readonly
    &&& a.confirm_kill == b.confirm_kill
    &&& a.collapsed_pids@ == b.collapsed_pids@
}

/// `c` holds the default settings.
pub open spec fn is_default_config(c: Config) -> bool {
    &&& c.refresh_rate_ms == 1500
    &&& c.tree_view_default == false
    &&& c.color_scheme == ColorScheme::Default
    &&& c.show_kernel_threads == true
    &&& c.show_user_threads == true
    &&& c.show_program_path == false
    &&& c.highlight_running == true
    &&& c.highlight_large_numbers == true
    &&& c.highlight_new_processes == true
    &&& c.highlight_duration_ms == 3000
    &&& c.highlight_basename == false
    &&& c.show_cpu_meters == true
    &&& c.show_memory_meter == true
    &&& c.show_swap_meter == true
    &&& c.show_tasks_meter == true
    &&& c.show_uptime_meter == true
    &&& c.show_load_average == true
    &&& c.show_network_io == false
    &&& c.show_disk_io == false
    &&& c.show_clock == false
    &&& c.show_hostname == true
    &&& c.show_battery == false
    &&& c.cpu_meter_mode == MeterMode::Bar
    &&& c.memory_meter_mode == MeterMode::Bar
    &&& c.visible_columns.deep_view() == default_columns()
    &&& c.mouse_enabled == true
    &&& c.readonly == false
    &&& c.confirm_kill == true
    &&& c.collapsed_pids@ == Set::<u32>::empty()
}

fn default_column_list() -> (r: Vec<String>)
    ensures
        r.deep_view() == default_columns(),
{
    let mut v: Vec<String> = Vec::new();
    v.push(string_of("PID"));
    v.push(string_of("USER"));
    v.push(string_of("PRI"));
    v.push(string_of("CLASS"));
    v.push(string_of("THR"));
    v.push(string_of("VIRT"));
    v.push(string_of("RES"));
    v.push(string_of("SHR"));
    v.push(string_of("S"));
    v.push(string_of("CPU%"));
    v.push(string_of("MEM%"));
    v.push(string_of("TIME+"));
    v.push(string_of("Command"));
    assert(v.deep_view() =~= default_columns());
    v
}

impl Default for Config {
    fn default() -> (r: Config)
        ensures
            is_default_config(r),
    {
        Config {
            refresh_rate_ms: 1500,
            tree_view_default: false,
            color_scheme: ColorScheme::Default,
            show_kernel_threads: true,
            show_user_threads: true,
            show_program_path: false,
            highlight_running: true,
            highlight_large_numbers: true,
            highlight_new_processes: true,
            highlight_duration_ms: 3000,
            highlight_basename: false,
            show_cpu_meters: true,
            show_memory_meter: true,
            show_swap_meter: true,
            show_tasks_meter: true,
            show_uptime_meter: true,
            show_load_average: true,
            show_network_io: false,
            show_disk_io: false,
            show_clock: false,
            show_hostname: true,
            show_battery: false,
            cpu_meter_mode: MeterMode::Bar,
            memory_meter_mode: MeterMode::Bar,
            visible_columns: default_column_list(),
            mouse_enabled: true,
            readonly: false,
            confirm_kill: true,
            collapsed_pids: HashSet::new(),
        }
    }
}

/// Index of the first element of `s` equal to `x`.
pub open spec fn first_index<A>(s: Seq<A>, x: A) -> Option<int>
    decreases s.len(),
{
    if s.len() == 0 {
        None
    } else if s[0] == x {
        Some(0)
    } else {
        match first_index(s.drop_first(), x) {
            Some(i) => Some(i + 1),
            None => None,
        }
    }
}

/// What `first_index` finds: an equal element with none before it, or no
/// equal element at all.
pub proof fn lemma_first_index<A>(s: Seq<A>, x: A)
    ensures
        match first_index(s, x) {
            Some(i) => 0 <= i < s.len() && s[i] == x && forall|j: int| 0 <= j < i ==> s[j] != x,
            None => forall|j: int| 0 <= j < s.len() ==> s[j] != x,
        },
    decreases s.len(),
{
    if s.len() > 0 && s[0] != x {
        lemma_first_index(s.drop_first(), x);
        let t = s.drop_first();
        assert forall|j: int| 1 <= j < s.len() implies s[j] == t[j - 1] by {}
    }
}

/// `first_index` is the position of an equal element with none before it.
pub proof fn lemma_first_index_at<A>(s: Seq<A>, x: A, i: int)
    requires
        0 <= i < s.len(),
        s[i] == x,
        forall|j: int| 0 <= j < i ==> s[j] != x,
    ensures
        first_index(s, x) == Some(i),
{
    lemma_first_index(s, x);
}

/// `first_index` finds nothing when no element is equal.
pub proof fn lemma_first_index_none<A>(s: Seq<A>, x: A)
    requires
        forall|j: int| 0 <= j < s.len() ==> s[j] != x,
    ensures
        first_index(s, x) is None,
{
    lemma_first_index(s, x);
}

/// Position of `column` in `columns`.
pub fn column_index(columns: &Vec<String>, column: &str) -> (r: Option<usize>)
    ensures
        match r {
            Some(i) => first_index(columns.deep_view(), column@) == Some(i as int),
            None => first_index(columns.deep_view(), column@) is None,
        },
{
    let ghost dv = columns.deep_view();
    let mut i: usize = 0;
    while i < columns.len()
        invariant
            dv == columns.deep_view(),
            dv.len() == columns@.len(),
            0 <= i <= columns.len(),
            forall|j: int| 0 <= j < i ==> dv[j] != column@,
        decreases columns.len() - i,
    {
        assert(dv[i as int] == columns@[i as int]@);
        if str_eq(columns[i].as_str(), column) {
            proof {
                lemma_first_index_at(dv, column@, i as int);
            }
            return Some(i);
        }
        i = i + 1;
    }
    proof {
        lemma_first_index_none(dv, column@);
    }
    None
}

/// `s` with the elements at `i` and `j` exchanged.
pub open spec fn swapped<A>(s: Seq<A>, i: int, j: int) -> Seq<A> {
    s.update(i, s[j]).update(j, s[i])
}

/// Exchange the adjacent columns at `i - 1` and `i`.
fn swap_with_previous(columns: &mut Vec<String>, i: usize)
    requires
        0 < i < old(columns).len(),
    ensures
        final(columns).deep_view() == swapped(old(columns).deep_view(), i - 1, i as int),
{
    let moved = columns.remove(i);
    columns.insert(i - 1, moved);
    assert(columns.deep_view() =~= swapped(old(columns).deep_view(), i - 1, i as int));
}

fn remove_column_at(columns: &mut Vec<String>, i: usize)
    requires
        i < old(columns).len(),
    ensures
        final(columns).deep_view() == old(columns).deep_view().remove(i as int),
{
    columns.remove(i);
    assert(columns.deep_view() =~= old(columns).deep_view().remove(i as int));
}

fn push_column(columns: &mut Vec<String>, column: &str)
    ensures
        final(columns).deep_view() == old(columns).deep_view().push(column@),
{
    columns.push(string_of(column));
    assert(columns.deep_view() =~= old(columns).deep_view().push(column@));
}

fn toggle_in(columns: &mut Vec<String>, column: &str)
    ensures
        final(columns).deep_view() == toggled(old(columns).deep_view(), column@),
{
    proof {
        lemma_first_index(columns.deep_view(), column@);
    }
    if let Some(pos) = column_index(columns, column) {
        remove_column_at(columns, pos);
    } else {
        push_column(columns, column);
    }
}

/// The column list after `toggle_column(column)`: the first occurrence
/// removed, or the column appended when absent.
pub open spec fn toggled(cols: Seq<Seq<char>>, column: Seq<char>) -> Seq<Seq<char>> {
    match first_index(cols, column) {
        Some(i) => cols.remove(i),
        None => cols.push(column),
    }
}

/// The column list after `move_column_up(column)`, and whether it moved.
pub open spec fn moved_up(cols: Seq<Seq<char>>, column: Seq<char>) -> (Seq<Seq<char>>, bool) {
    match first_index(cols, column) {
        Some(i) => if i > 0 {
            (swapped(cols, i - 1, i), true)
        } else {
            (cols, false)
        },
        None => (cols, false),
    }
}

/// The column list after `move_column_down(column)`, and whether it moved.
pub open spec fn moved_down(cols: Seq<Seq<char>>, column: Seq<char>) -> (Seq<Seq<char>>, bool) {
    match first_index(cols, column) {
        Some(i) => if i < cols.len() - 1 {
            (swapped(cols, i, i + 1), true)
        } else {
            (cols, false)
        },
        None => (cols, false),
    }
}

impl Config {
    /// Check if a column should be visible
    pub fn is_column_visible(&self, column: &str) -> (r: bool)
        ensures
            r == self.visible_columns.deep_view().contains(column@),
    {
        let r = column_index(&self.visible_columns, column);
        proof {
            lemma_first_index(self.visible_columns.deep_view(), column@);
        }
        r.is_some()
    }

    /// Toggle a column's visibility
    pub fn toggle_column(&mut self, column: &str)
        ensures
            same_settings(*final(self), *old(self)),
            final(self).visible_columns.deep_view() == toggled(old(self).visible_columns.deep_view(), column@),
    {
        toggle_in(&mut self.visible_columns, column);
    }

    /// Move a visible column up in the order (returns true if moved)
    pub fn move_column_up(&mut self, column: &str) -> (r: bool)
        ensures
            same_settings(*final(self), *old(self)),
            (final(self).visible_columns.deep_view(), r) == moved_up(old(self).visible_columns.deep_view(), column@),
    {
        proof {
            lemma_first_index(self.visible_columns.deep_view(), column@);
        }
        if let Some(pos) = column_index(&self.visible_columns, column) {
            if pos > 0 {
                swap_with_previous(&mut self.visible_columns, pos);
                return true;
            }
        }
        false
    }

    /// Move a visible column down in the order (returns true if moved)
    pub fn move_column_down(&mut self, column: &str) -> (r: bool)
        ensures
            same_settings(*final(self), *old(self)),
            (final(self).visible_columns.deep_view(), r) == moved_down(old(self).visible_columns.deep_view(), column@),
    {
        proof {
            lemma_first_index(self.visible_columns.deep_view(), column@);
        }
        if let Some(pos) = column_index(&self.visible_columns, column) {
            if pos < self.visible_columns.len() - 1 {
                swap_with_previous(&mut self.visible_columns, pos + 1);
                return true;
            }
        }
        false
    }

    /// Get the position of a column in the visible order (None if not visible)
    pub fn column_position(&self, column: &str) -> (r: Option<usize>)
        ensures
            match r {
                Some(i) => first_index(self.visible_columns.deep_view(), column@) == Some(i as int),
                None => first_index(self.visible_columns.deep_view(), column@) is None,
            },
    {
        column_index(&self.visible_columns, column)
    }

    /// Reset all settings to defaults
    pub fn reset_to_defaults(&mut self)
        ensures
            is_default_config(*final(self)),
    {
        *self = Config::default();
    }
}

/// Toggling a column that is not shown and toggling it again restores the
/// list; toggling always flips whether a column without duplicates is shown.
pub proof fn toggle_column_twice(cols: Seq<Seq<char>>, column: Seq<char>)
    ensures
        !cols.contains(column) ==> toggled(toggled(cols, column), column) == cols,
        !cols.contains(column) ==> toggled(cols, column).contains(column),
        (forall|i: int, j: int| 0 <= i < j < cols.len() ==> cols[i] != cols[j]) && cols.contains(column)
            ==> !toggled(cols, column).contains(column),
{
    lemma_first_index(cols, column);
    if !cols.contains(column) {
        let t = cols.push(column);
        assert(t[cols.len() as int] == column);
        lemma_first_index(t, column);
        match first_index(t, column) {
            Some(i) => {
                if i < cols.len() {
                    assert(cols[i] == column);
                }
                assert(t.remove(i) =~= cols);
            },
            None => {},
        }
    } else {
        match first_index(cols, column) {
            Some(i) => {
                let r = cols.remove(i);
                if (forall|a: int, b: int| 0 <= a < b < cols.len() ==> cols[a] != cols[b]) {
                    assert forall|k: int| 0 <= k < r.len() implies r[k] != column by {
                        if k < i {
                        } else {
                            assert(r[k] == cols[k + 1]);
                        }
                    }
                }
            },
            None => {},
        }
    }
}

/// Moving a column up and then down again restores the list.
pub proof fn move_column_up_then_down(cols: Seq<Seq<char>>, column: Seq<char>)
    ensures
        moved_up(cols, column).1 ==> moved_down(moved_up(cols, column).0, column) == (cols, true),
{
    lemma_first_index(cols, column);
    if moved_up(cols, column).1 {
        let i = first_index(cols, column).unwrap();
        let up = swapped(cols, i - 1, i);
        assert(up[i - 1] == column);
        assert(forall|j: int| 0 <= j < i - 1 ==> up[j] == cols[j]);
        lemma_first_index_at(up, column, i - 1);
        assert(swapped(up, i - 1, i) =~= cols);
    }
}

/// Moving a column down and then up again restores the list when the
/// column it passes is a different one.
pub proof fn move_column_down_then_up(cols: Seq<Seq<char>>, column: Seq<char>)
    ensures
        moved_down(cols, column).1 && cols[first_index(cols, column).unwrap() + 1] != column
            ==> moved_up(moved_down(cols, column).0, column) == (cols, true),
{
    lemma_first_index(cols, column);
    if moved_down(cols, column).1 && cols[first_index(cols, column).unwrap() + 1] != column {
        let i = first_index(cols, column).unwrap();
        let down = swapped(cols, i, i + 1);
        assert(down[i + 1] == column);
        assert(forall|j: int| 0 <= j <= i ==> down[j] != column);
        lemma_first_index_at(down, column, i + 1);
        assert(swapped(down, i, i + 1) =~= cols);
    }
}

/// The boolean member `key` of `v`, or `default`.
pub open spec fn json_bool(v: Value, key: Seq<char>, default: bool) -> bool {
    match v.spec_get(key) {
        Some(x) => match x.spec_as_bool() {
            Some(b) => b,
            None => default,
        },
        None => default,
    }
}

/// The non-negative number member `key` of `v`, or `default`.
pub open spec fn json_u64(v: Value, key: Seq<char>, default: u64) -> u64 {
    match v.spec_get(key) {
        Some(x) => match x.spec_as_u64() {
            Some(n) => n,
            None => default,
        },
        None => default,
    }
}

/// The string member `key` of `v`, or `default`.
pub open spec fn json_str(v: Value, key: Seq<char>, default: Seq<char>) -> Seq<char> {
    match v.spec_get(key) {
        Some(x) => match x.spec_as_str() {
            Some(s) => s,
            None => default,
        },
        None => default,
    }
}

/// The strings among `items`, in order.
pub open spec fn string_items(items: Seq<Value>) -> Seq<Seq<char>>
    decreases items.len(),
{
    if items.len() == 0 {
        Seq::empty()
    } else {
        let rest = string_items(items.drop_last());
        match items.last().spec_as_str() {
            Some(s) => rest.push(s),
            None => rest,
        }
    }
}

/// The strings of the array member `visible_columns`, or `default`.
pub open spec fn json_columns(v: Value, default: Seq<Seq<char>>) -> Seq<Seq<char>> {
    match v.spec_get("visible_columns"@) {
        Some(x) => match x {
            Value::Array(items) => string_items(items@),
            _ => default,
        },
        None => default,
    }
}

/// `c` is what reading the settings object `v` gives: each member that is
/// present with the right type, the default otherwise.
pub open spec fn config_read_from(v: Value, c: Config) -> bool {
    &&& c.refresh_rate_ms == json_u64(v, "refresh_rate_ms"@, 1500)
    &&& c.tree_view_default == json_bool(v, "tree_view_default"@, false)
    &&& c.color_scheme == ColorScheme::spec_from_str(json_str(v, "color_scheme"@, "Default"@))
    &&& c.show_kernel_threads == json_bool(v, "show_kernel_threads"@, true)
    &&& c.show_user_threads == json_bool(v, "show_user_threads"@, true)
    &&& c.show_program_path == json_bool(v, "show_program_path"@, false)
    &&& c.highlight_running == json_bool(v, "highlight_running"@, true)
    &&& c.highlight_large_numbers == json_bool(v, "highlight_large_numbers"@, true)
    &&& c.highlight_new_processes == json_bool(v, "highlight_new_processes"@, true)
    &&& c.highlight_duration_ms == json_u64(v, "highlight_duration_ms"@, 3000)
    &&& c.highlight_basename == json_bool(v, "highlight_basename"@, false)
    &&& c.show_cpu_meters == json_bool(v, "show_cpu_meters"@, true)
    &&& c.show_memory_meter == json_bool(v, "show_memory_meter"@, true)
    &&& c.show_swap_meter == json_bool(v, "show_swap_meter"@, true)
    &&& c.show_tasks_meter == json_bool(v, "show_tasks_meter"@, true)
    &&& c.show_uptime_meter == json_bool(v, "show_uptime_meter"@, true)
    &&& c.show_load_average == json_bool(v, "show_load_average"@, true)
    &&& c.show_network_io == json_bool(v, "show_network_io"@, false)
    &&& c.show_disk_io == json_bool(v, "show_disk_io"@, false)
    &&& c.show_clock == json_bool(v, "show_clock"@, false)
    &&& c.show_hostname == json_bool(v, "show_hostname"@, true)
    &&& c.show_battery == json_bool(v, "show_battery"@, false)
    &&& c.cpu_meter_mode == MeterMode::spec_from_str(json_str(v, "cpu_meter_mode"@, "Bar"@))
    &&& c.memory_meter_mode == MeterMode::spec_from_str(json_str(v, "memory_meter_mode"@, "Bar"@))
    &&& c.visible_columns.deep_view() == json_columns(v, default_columns())
    &&& c.mouse_enabled == json_bool(v, "mouse_enabled"@, true)
    &&& c.readonly == json_bool(v, "readonly"@, false)
    &&& c.confirm_kill == json_bool(v, "confirm_kill"@, true)
    &&& c.collapsed_pids@ == Set::<u32>::empty()
}

pub open spec fn bool_entry(e: (String, Value), key: Seq<char>, b: bool) -> bool {
    e.0@ == key && e.1 == Value::Bool(b)
}

pub open spec fn number_entry(e: (String, Value), key: Seq<char>, n: i64) -> bool {
    e.0@ == key && e.1 == Value::Number(n)
}

pub open spec fn string_entry(e: (String, Value), key: Seq<char>, s: Seq<char>) -> bool {
    e.0@ == key && e.1.spec_as_str() == Some(s)
}

/// `items` are string values holding `strings`.
pub open spec fn string_values(items: Seq<Value>, strings: Seq<Seq<char>>) -> bool {
    &&& items.len() == strings.len()
    &&& forall|i: int| 0 <= i < items.len() ==> #[trigger] items[i].spec_as_str() == Some(strings[i])
}

pub open spec fn strings_entry(e: (String, Value), key: Seq<char>, strings: Seq<Seq<char>>) -> bool {
    e.0@ == key && (e.1 matches Value::Array(items) && string_values(items@, strings))
}

/// `entries` are the members that `to_json` writes for `c`, in order.
pub open spec fn config_json_entries(c: Config, entries: Seq<(String, Value)>) -> bool {
    &&& entries.len() == 28
    &&& number_entry(entries[0], "refresh_rate_ms"@, c.refresh_rate_ms as i64)
    &&& bool_entry(entries[1], "tree_view_default"@, c.tree_view_default)
    &&& string_entry(entries[2], "color_scheme"@, c.color_scheme.spec_as_str())
    &&& bool_entry(entries[3], "show_kernel_threads"@, c.show_kernel_threads)
    &&& bool_entry(entries[4], "show_user_threads"@, c.show_user_threads)
    &&& bool_entry(entries[5], "show_program_path"@, c.show_program_path)
    &&& bool_entry(entries[6], "highlight_running"@, c.highlight_running)
    &&& bool_entry(entries[7], "highlight_large_numbers"@, c.highlight_large_numbers)
    &&& bool_entry(entries[8], "highlight_new_processes"@, c.highlight_new_processes)
    &&& number_entry(entries[9], "highlight_duration_ms"@, c.highlight_duration_ms as i64)
    &&& bool_entry(entries[10], "highlight_basename"@, c.highlight_basename)
    &&& bool_entry(entries[11], "show_cpu_meters"@, c.show_cpu_meters)
    &&& bool_entry(entries[12], "show_memory_meter"@, c.show_memory_meter)
    &&& bool_entry(entries[13], "show_swap_meter"@, c.show_swap_meter)
    &&& bool_entry(entries[14], "show_tasks_meter"@, c.show_tasks_meter)
    &&& bool_entry(entries[15], "show_uptime_meter"@, c.show_uptime_meter)
    &&& bool_entry(entries[16], "show_load_average"@, c.show_load_average)
    &&& bool_entry(entries[17], "show_network_io"@, c.show_network_io)
    &&& bool_entry(entries[18], "show_disk_io"@, c.show_disk_io)
    &&& bool_entry(entries[19], "show_clock"@, c.show_clock)
    &&& bool_entry(entries[20], "show_hostname"@, c.show_hostname)
    &&& bool_entry(entries[21], "show_battery"@, c.show_battery)
    &&& string_entry(entries[22], "cpu_meter_mode"@, c.cpu_meter_mode.spec_as_str())
    &&& string_entry(entries[23], "memory_meter_mode"@, c.memory_meter_mode.spec_as_str())
    &&& strings_entry(entries[24], "visible_columns"@, c.visible_columns.deep_view())
    &&& bool_entry(entries[25], "mouse_enabled"@, c.mouse_enabled)
    &&& bool_entry(entries[26], "readonly"@, c.readonly)
    &&& bool_entry(entries[27], "confirm_kill"@, c.confirm_kill)
}

fn get_bool(v: &Value, key: &str, default: bool) -> (r: bool)
    ensures
        r == json_bool(*v, key@, default),
{
    match v.get(key) {
        Some(x) => match x.as_bool() {
            Some(b) => b,
            None => default,
        },
        None => default,
    }
}

fn get_u64(v: &Value, key: &str, default: u64) -> (r: u64)
    ensures
        r == json_u64(*v, key@, default),
{
    match v.get(key) {
        Some(x) => match x.as_u64() {
            Some(n) => n,
            None => default,
        },
        None => default,
    }
}

fn get_str(v: &Value, key: &str, default: &str) -> (r: String)
    ensures
        r@ == json_str(*v, key@, default@),
{
    match v.get(key) {
        Some(x) => match x.as_str() {
            Some(s) => string_of(s),
            None => string_of(default),
        },
        None => string_of(default),
    }
}

/// The strings of `items`, in order.
fn collect_strings(items: &Vec<Value>) -> (r: Vec<String>)
    ensures
        r.deep_view() == string_items(items@),
{
    let mut out: Vec<String> = Vec::new();
    let mut i: usize = 0;
    assert(items@.subrange(0, 0) =~= Seq::<Value>::empty());
    assert(out.deep_view() =~= Seq::<Seq<char>>::empty());
    while i < items.len()
        invariant
            0 <= i <= items@.len(),
            out.deep_view() == string_items(items@.subrange(0, i as int)),
        decreases items.len() - i,
    {
        let ghost before = out.deep_view();
        assert(items@.subrange(0, i + 1).drop_last() =~= items@.subrange(0, i as int));
        assert(items@.subrange(0, i + 1).last() == items@[i as int]);
        match items[i].as_str() {
            Some(s) => {
                out.push(string_of(s));
                assert(out.deep_view() =~= before.push(s@));
            },
            None => {},
        }
        i = i + 1;
    }
    assert(items@.subrange(0, items@.len() as int) =~= items@);
    out
}

fn get_columns(v: &Value) -> (r: Vec<String>)
    ensures
        r.deep_view() == json_columns(*v, default_columns()),
{
    match v.get("visible_columns") {
        Some(x) => match x.as_array() {
            Some(items) => collect_strings(items),
            None => default_column_list(),
        },
        None => default_column_list(),
    }
}

/// String values for `columns`, in order.
fn string_array(columns: &Vec<String>) -> (r: Vec<Value>)
    ensures
        string_values(r@, columns.deep_view()),
{
    let mut out: Vec<Value> = Vec::new();
    let mut i: usize = 0;
    while i < columns.len()
        invariant
            0 <= i <= columns@.len(),
            out@.len() == i,
            forall|j: int| 0 <= j < i ==> #[trigger] out@[j].spec_as_str() == Some(columns@[j]@),
        decreases columns.len() - i,
    {
        out.push(Value::String(columns[i].clone()));
        i = i + 1;
    }
    out
}

impl Config {
    /// Parse config from JSON value
    pub fn from_json(v: &Value) -> (r: Config)
        ensures
            config_read_from(*v, r),
    {
        Config {
            refresh_rate_ms: get_u64(v, "refresh_rate_ms", 1500),
            tree_view_default: get_bool(v, "tree_view_default", false),
            color_scheme: ColorScheme::from_str(get_str(v, "color_scheme", ColorScheme::Default.as_str()).as_str()),
            show_kernel_threads: get_bool(v, "show_kernel_threads", true),
            show_user_threads: get_bool(v, "show_user_threads", true),
            show_program_path: get_bool(v, "show_program_path", false),
            highlight_running: get_bool(v, "highlight_running", true),
            highlight_large_numbers: get_bool(v, "highlight_large_numbers", true),
            highlight_new_processes: get_bool(v, "highlight_new_processes", true),
            highlight_duration_ms: get_u64(v, "highlight_duration_ms", 3000),
            highlight_basename: get_bool(v, "highlight_basename", false),
            show_cpu_meters: get_bool(v, "show_cpu_meters", true),
            show_memory_meter: get_bool(v, "show_memory_meter", true),
            show_swap_meter: get_bool(v, "show_swap_meter", true),
            show_tasks_meter: get_bool(v, "show_tasks_meter", true),
            show_uptime_meter: get_bool(v, "show_uptime_meter", true),
            show_load_average: get_bool(v, "show_load_average", true),
            show_network_io: get_bool(v, "show_network_io", false),
            show_disk_io: get_bool(v, "show_disk_io", false),
            show_clock: get_bool(v, "show_clock", false),
            show_hostname: get_bool(v, "show_hostname", true),
            show_battery: get_bool(v, "show_battery", false),
            cpu_meter_mode: MeterMode::from_str(get_str(v, "cpu_meter_mode", MeterMode::Bar.as_str()).as_str()),
            memory_meter_mode: MeterMode::from_str(get_str(v, "memory_meter_mode", MeterMode::Bar.as_str()).as_str()),
            visible_columns: get_columns(v),
            mouse_enabled: get_bool(v, "mouse_enabled", true),
            readonly: get_bool(v, "readonly", false),
            confirm_kill: get_bool(v, "confirm_kill", true),
            collapsed_pids: HashSet::new(),
        }
    }

    /// Convert config to JSON value
    #[verifier::spinoff_prover]
    #[verifier::rlimit(40)]
    pub fn to_json(&self) -> (r: Value)
        ensures
            r matches Value::Object(entries) && config_json_entries(*self, entries@),
    {
        let mut map: Vec<(String, Value)> = Vec::new();
        map.push((string_of("refresh_rate_ms"), Value::Number(self.refresh_rate_ms as i64)));
        map.push((string_of("tree_view_default"), Value::Bool(self.tree_view_default)));
        map.push((string_of("color_scheme"), Value::String(string_of(self.color_scheme.as_str()))));
        map.push((string_of("show_kernel_threads"), Value::Bool(self.show_kernel_threads)));
        map.push((string_of("show_user_threads"), Value::Bool(self.show_user_threads)));
        map.push((string_of("show_program_path"), Value::Bool(self.show_program_path)));
        map.push((string_of("highlight_running"), Value::Bool(self.highlight_running)));
        map.push((string_of("highlight_large_numbers"), Value::Bool(self.highlight_large_numbers)));
        map.push((string_of("highlight_new_processes"), Value::Bool(self.highlight_new_processes)));
        map.push((string_of("highlight_duration_ms"), Value::Number(self.highlight_duration_ms as i64)));
        map.push((string_of("highlight_basename"), Value::Bool(self.highlight_basename)));
        map.push((string_of("show_cpu_meters"), Value::Bool(self.show_cpu_meters)));
        map.push((string_of("show_memory_meter"), Value::Bool(self.show_memory_meter)));
        map.push((string_of("show_swap_meter"), Value::Bool(self.show_swap_meter)));
        map.push((string_of("show_tasks_meter"), Value::Bool(self.show_tasks_meter)));
        map.push((string_of("show_uptime_meter"), Value::Bool(self.show_uptime_meter)));
        map.push((string_of("show_load_average"), Value::Bool(self.show_load_average)));
        map.push((string_of("show_network_io"), Value::Bool(self.show_network_io)));
        map.push((string_of("show_disk_io"), Value::Bool(self.show_disk_io)));
        map.push((string_of("show_clock"), Value::Bool(self.show_clock)));
        map.push((string_of("show_hostname"), Value::Bool(self.show_hostname)));
        map.push((string_of("show_battery"), Value::Bool(self.show_battery)));
        map.push((string_of("cpu_meter_mode"), Value::String(string_of(self.cpu_meter_mode.as_str()))));
        map.push((string_of("memory_meter_mode"), Value::String(string_of(self.memory_meter_mode.as_str()))));
        map.push((string_of("visible_columns"), Value::Array(string_array(&self.visible_columns))));
        map.push((string_of("mouse_enabled"), Value::Bool(self.mouse_enabled)));
        map.push((string_of("readonly"), Value::Bool(self.readonly)));
        map.push((string_of("confirm_kill"), Value::Bool(self.confirm_kill)));
        Value::Object(map)
    }
}

/// The settings keys, character by character.
proof fn lemma_settings_keys_spelled()
    ensures
        "refresh_rate_ms"@.len() == 15,
        "refresh_rate_ms"@[0] == 'r',
        "refresh_rate_ms"@[1] == 'e',
        "refresh_rate_ms"@[2] == 'f',
        "refresh_rate_ms"@[3] == 'r',
        "refresh_rate_ms"@[4] == 'e',
        "refresh_rate_ms"@[5] == 's',
        "refresh_rate_ms"@[6] == 'h',
        "refresh_rate_ms"@[7] == '_',
        "refresh_rate_ms"@[8] == 'r',
        "refresh_rate_ms"@[9] == 'a',
        "refresh_rate_ms"@[10] == 't',
        "refresh_rate_ms"@[11] == 'e',
        "refresh_rate_ms"@[12] == '_',
        "refresh_rate_ms"@[13] == 'm',
        "refresh_rate_ms"@[14] == 's',
        "tree_view_default"@.len() == 17,
        "tree_view_default"@[0] == 't',
        "tree_view_default"@[1] == 'r',
        "tree_view_default"@[2] == 'e',
        "tree_view_default"@[3] == 'e',
        "tree_view_default"@[4] == '_',
        "tree_view_default"@[5] == 'v',
        "tree_view_default"@[6] == 'i',
        "tree_view_default"@[7] == 'e',
        "tree_view_default"@[8] == 'w',
        "tree_view_default"@[9] == '_',
        "tree_view_default"@[10] == 'd',
        "tree_view_default"@[11] == 'e',
        "tree_view_default"@[12] == 'f',
        "tree_view_default"@[13] == 'a',
        "tree_view_default"@[14] == 'u',
        "tree_view_default"@[15] == 'l',
        "tree_view_default"@[16] == 't',
        "color_scheme"@.len() == 12,
        "color_scheme"@[0] == 'c',
        "color_scheme"@[1] == 'o',
        "color_scheme"@[2] == 'l',
        "color_scheme"@[3] == 'o',
        "color_scheme"@[4] == 'r',
        "color_scheme"@[5] == '_',
        "color_scheme"@[6] == 's',
        "color_scheme"@[7] == 'c',
        "color_scheme"@[8] == 'h',
        "color_scheme"@[9] == 'e',
        "color_scheme"@[10] == 'm',
        "color_scheme"@[11] == 'e',
        "show_kernel_threads"@.len() == 19,
        "show_kernel_threads"@[0] == 's',
        "show_kernel_threads"@[1] == 'h',
        "show_kernel_threads"@[2] == 'o',
        "show_kernel_threads"@[3] == 'w',
        "show_kernel_threads"@[4] == '_',
        "show_kernel_threads"@[5] == 'k',
        "show_kernel_threads"@[6] == 'e',
        "show_kernel_threads"@[7] == 'r',
        "show_kernel_threads"@[8] == 'n',
        "show_kernel_threads"@[9] == 'e',
        "show_kernel_threads"@[10] == 'l',
        "show_kernel_threads"@[11] == '_',
        "show_kernel_threads"@[12] == 't',
        "show_kernel_threads"@[13] == 'h',
        "show_kernel_threads"@[14] == 'r',
        "show_kernel_threads"@[15] == 'e',
        "show_kernel_threads"@[16] == 'a',
        "show_kernel_threads"@[17] == 'd',
        "show_kernel_threads"@[18] == 's',
        "show_user_threads"@.len() == 17,
        "show_user_threads"@[0] == 's',
        "show_user_threads"@[1] == 'h',
        "show_user_threads"@[2] == 'o',
        "show_user_threads"@[3] == 'w',
        "show_user_threads"@[4] == '_',
        "show_user_threads"@[5] == 'u',
        "show_user_threads"@[6] == 's',
        "show_user_threads"@[7] == 'e',
        "show_user_threads"@[8] == 'r',
        "show_user_threads"@[9] == '_',
        "show_user_threads"@[10] == 't',
        "show_user_threads"@[11] == 'h',
        "show_user_threads"@[12] == 'r',
        "show_user_threads"@[13] == 'e',
        "show_user_threads"@[14] == 'a',
        "show_user_threads"@[15] == 'd',
        "show_user_threads"@[16] == 's',
        "show_program_path"@.len() == 17,
        "show_program_path"@[0] == 's',
        "show_program_path"@[1] == 'h',
        "show_program_path"@[2] == 'o',
        "show_program_path"@[3] == 'w',
        "show_program_path"@[4] == '_',
        "show_program_path"@[5] == 'p',
        "show_program_path"@[6] == 'r',
        "show_program_path"@[7] == 'o',
        "show_program_path"@[8] == 'g',
        "show_program_path"@[9] == 'r',
        "show_program_path"@[10] == 'a',
        "show_program_path"@[11] == 'm',
        "show_program_path"@[12] == '_',
        "show_program_path"@[13] == 'p',
        "show_program_path"@[14] == 'a',
        "show_program_path"@[15] == 't',
        "show_program_path"@[16] == 'h',
        "highlight_running"@.len() == 17,
        "highlight_running"@[0] == 'h',
        "highlight_running"@[1] == 'i',
        "highlight_running"@[2] == 'g',
        "highlight_running"@[3] == 'h',
        "highlight_running"@[4] == 'l',
        "highlight_running"@[5] == 'i',
        "highlight_running"@[6] == 'g',
        "highlight_running"@[7] == 'h',
        "highlight_running"@[8] == 't',
        "highlight_running"@[9] == '_',
        "highlight_running"@[10] == 'r',
        "highlight_running"@[11] == 'u',
        "highlight_running"@[12] == 'n',
        "highlight_running"@[13] == 'n',
        "highlight_running"@[14] == 'i',
        "highlight_running"@[15] == 'n',
        "highlight_running"@[16] == 'g',
        "highlight_large_numbers"@.len() == 23,
        "highlight_large_numbers"@[0] == 'h',
        "highlight_large_numbers"@[1] == 'i',
        "highlight_large_numbers"@[2] == 'g',
        "highlight_large_numbers"@[3] == 'h',
        "highlight_large_numbers"@[4] == 'l',
        "highlight_large_numbers"@[5] == 'i',
        "highlight_large_numbers"@[6] == 'g',
        "highlight_large_numbers"@[7] == 'h',
        "highlight_large_numbers"@[8] == 't',
        "highlight_large_numbers"@[9] == '_',
        "highlight_large_numbers"@[10] == 'l',
        "highlight_large_numbers"@[11] == 'a',
        "highlight_large_numbers"@[12] == 'r',
        "highlight_large_numbers"@[13] == 'g',
        "highlight_large_numbers"@[14] == 'e',
        "highlight_large_numbers"@[15] == '_',
        "highlight_large_numbers"@[16] == 'n',
        "highlight_large_numbers"@[17] == 'u',
        "highlight_large_numbers"@[18] == 'm',
        "highlight_large_numbers"@[19] == 'b',
        "highlight_large_numbers"@[20] == 'e',
        "highlight_large_numbers"@[21] == 'r',
        "highlight_large_numbers"@[22] == 's',
        "highlight_new_processes"@.len() == 23,
        "highlight_new_processes"@[0] == 'h',
        "highlight_new_processes"@[1] == 'i',
        "highlight_new_processes"@[2] == 'g',
        "highlight_new_processes"@[3] == 'h',
        "highlight_new_processes"@[4] == 'l',
        "highlight_new_processes"@[5] == 'i',
        "highlight_new_processes"@[6] == 'g',
        "highlight_new_processes"@[7] == 'h',
        "highlight_new_processes"@[8] == 't',
        "highlight_new_processes"@[9] == '_',
        "highlight_new_processes"@[10] == 'n',
        "highlight_new_processes"@[11] == 'e',
        "highlight_new_processes"@[12] == 'w',
        "highlight_new_processes"@[13] == '_',
        "highlight_new_processes"@[14] == 'p',
        "highlight_new_processes"@[15] == 'r',
        "highlight_new_processes"@[16] == 'o',
        "highlight_new_processes"@[17] == 'c',
        "highlight_new_processes"@[18] == 'e',
        "highlight_new_processes"@[19] == 's',
        "highlight_new_processes"@[20] == 's',
        "highlight_new_processes"@[21] == 'e',
        "highlight_new_processes"@[22] == 's',
        "highlight_duration_ms"@.len() == 21,
        "highlight_duration_ms"@[0] == 'h',
        "highlight_duration_ms"@[1] == 'i',
        "highlight_duration_ms"@[2] == 'g',
        "highlight_duration_ms"@[3] == 'h',
        "highlight_duration_ms"@[4] == 'l',
        "highlight_duration_ms"@[5] == 'i',
        "highlight_duration_ms"@[6] == 'g',
        "highlight_duration_ms"@[7] == 'h',
        "highlight_duration_ms"@[8] == 't',
        "highlight_duration_ms"@[9] == '_',
        "highlight_duration_ms"@[10] == 'd',
        "highlight_duration_ms"@[11] == 'u',
        "highlight_duration_ms"@[12] == 'r',
        "highlight_duration_ms"@[13] == 'a',
        "highlight_duration_ms"@[14] == 't',
        "highlight_duration_ms"@[15] == 'i',
        "highlight_duration_ms"@[16] == 'o',
        "highlight_duration_ms"@[17] == 'n',
        "highlight_duration_ms"@[18] == '_',
        "highlight_duration_ms"@[19] == 'm',
        "highlight_duration_ms"@[20] == 's',
        "highlight_basename"@.len() == 18,
        "highlight_basename"@[0] == 'h',
        "highlight_basename"@[1] == 'i',
        "highlight_basename"@[2] == 'g',
        "highlight_basename"@[3] == 'h',
        "highlight_basename"@[4] == 'l',
        "highlight_basename"@[5] == 'i',
        "highlight_basename"@[6] == 'g',
        "highlight_basename"@[7] == 'h',
        "highlight_basename"@[8] == 't',
        "highlight_basename"@[9] == '_',
        "highlight_basename"@[10] == 'b',
        "highlight_basename"@[11] == 'a',
        "highlight_basename"@[12] == 's',
        "highlight_basename"@[13] == 'e',
        "highlight_basename"@[14] == 'n',
        "highlight_basename"@[15] == 'a',
        "highlight_basename"@[16] == 'm',
        "highlight_basename"@[17] == 'e',
        "show_cpu_meters"@.len() == 15,
        "show_cpu_meters"@[0] == 's',
        "show_cpu_meters"@[1] == 'h',
        "show_cpu_meters"@[2] == 'o',
        "show_cpu_meters"@[3] == 'w',
        "show_cpu_meters"@[4] == '_',
        "show_cpu_meters"@[5] == 'c',
        "show_cpu_meters"@[6] == 'p',
        "show_cpu_meters"@[7] == 'u',
        "show_cpu_meters"@[8] == '_',
        "show_cpu_meters"@[9] == 'm',
        "show_cpu_meters"@[10] == 'e',
        "show_cpu_meters"@[11] == 't',
        "show_cpu_meters"@[12] == 'e',
        "show_cpu_meters"@[13] == 'r',
        "show_cpu_meters"@[14] == 's',
        "show_memory_meter"@.len() == 17,
        "show_memory_meter"@[0] == 's',
        "show_memory_meter"@[1] == 'h',
        "show_memory_meter"@[2] == 'o',
        "show_memory_meter"@[3] == 'w',
        "show_memory_meter"@[4] == '_',
        "show_memory_meter"@[5] == 'm',
        "show_memory_meter"@[6] == 'e',
        "show_memory_meter"@[7] == 'm',
        "show_memory_meter"@[8] == 'o',
        "show_memory_meter"@[9] == 'r',
        "show_memory_meter"@[10] == 'y',
        "show_memory_meter"@[11] == '_',
        "show_memory_meter"@[12] == 'm',
        "show_memory_meter"@[13] == 'e',
        "show_memory_meter"@[14] == 't',
        "show_memory_meter"@[15] == 'e',
        "show_memory_meter"@[16] == 'r',
        "show_swap_meter"@.len() == 15,
        "show_swap_meter"@[0] == 's',
        "show_swap_meter"@[1] == 'h',
        "show_swap_meter"@[2] == 'o',
        "show_swap_meter"@[3] == 'w',
        "show_swap_meter"@[4] == '_',
        "show_swap_meter"@[5] == 's',
        "show_swap_meter"@[6] == 'w',
        "show_swap_meter"@[7] == 'a',
        "show_swap_meter"@[8] == 'p',
        "show_swap_meter"@[9] == '_',
        "show_swap_meter"@[10] == 'm',
        "show_swap_meter"@[11] == 'e',
        "show_swap_meter"@[12] == 't',
        "show_swap_meter"@[13] == 'e',
        "show_swap_meter"@[14] == 'r',
        "show_tasks_meter"@.len() == 16,
        "show_tasks_meter"@[0] == 's',
        "show_tasks_meter"@[1] == 'h',
        "show_tasks_meter"@[2] == 'o',
        "show_tasks_meter"@[3] == 'w',
        "show_tasks_meter"@[4] == '_',
        "show_tasks_meter"@[5] == 't',
        "show_tasks_meter"@[6] == 'a',
        "show_tasks_meter"@[7] == 's',
        "show_tasks_meter"@[8] == 'k',
        "show_tasks_meter"@[9] == 's',
        "show_tasks_meter"@[10] == '_',
        "show_tasks_meter"@[11] == 'm',
        "show_tasks_meter"@[12] == 'e',
        "show_tasks_meter"@[13] == 't',
        "show_tasks_meter"@[14] == 'e',
        "show_tasks_meter"@[15] == 'r',
        "show_uptime_meter"@.len() == 17,
        "show_uptime_meter"@[0] == 's',
        "show_uptime_meter"@[1] == 'h',
        "show_uptime_meter"@[2] == 'o',
        "show_uptime_meter"@[3] == 'w',
        "show_uptime_meter"@[4] == '_',
        "show_uptime_meter"@[5] == 'u',
        "show_uptime_meter"@[6] == 'p',
        "show_uptime_meter"@[7] == 't',
        "show_uptime_meter"@[8] == 'i',
        "show_uptime_meter"@[9] == 'm',
        "show_uptime_meter"@[10] == 'e',
        "show_uptime_meter"@[11] == '_',
        "show_uptime_meter"@[12] == 'm',
        "show_uptime_meter"@[13] == 'e',
        "show_uptime_meter"@[14] == 't',
        "show_uptime_meter"@[15] == 'e',
        "show_uptime_meter"@[16] == 'r',
        "show_load_average"@.len() == 17,
        "show_load_average"@[0] == 's',
        "show_load_average"@[1] == 'h',
        "show_load_average"@[2] == 'o',
        "show_load_average"@[3] == 'w',
        "show_load_average"@[4] == '_',
        "show_load_average"@[5] == 'l',
        "show_load_average"@[6] == 'o',
        "show_load_average"@[7] == 'a',
        "show_load_average"@[8] == 'd',
        "show_load_average"@[9] == '_',
        "show_load_average"@[10] == 'a',
        "show_load_average"@[11] == 'v',
        "show_load_average"@[12] == 'e',
        "show_load_average"@[13] == 'r',
        "show_load_average"@[14] == 'a',
        "show_load_average"@[15] == 'g',
        "show_load_average"@[16] == 'e',
        "show_network_io"@.len() == 15,
        "show_network_io"@[0] == 's',
        "show_network_io"@[1] == 'h',
        "show_network_io"@[2] == 'o',
        "show_network_io"@[3] == 'w',
        "show_network_io"@[4] == '_',
        "show_network_io"@[5] == 'n',
        "show_network_io"@[6] == 'e',
        "show_network_io"@[7] == 't',
        "show_network_io"@[8] == 'w',
        "show_network_io"@[9] == 'o',
        "show_network_io"@[10] == 'r',
        "show_network_io"@[11] == 'k',
        "show_network_io"@[12] == '_',
        "show_network_io"@[13] == 'i',
        "show_network_io"@[14] == 'o',
        "show_disk_io"@.len() == 12,
        "show_disk_io"@[0] == 's',
        "show_disk_io"@[1] == 'h',
        "show_disk_io"@[2] == 'o',
        "show_disk_io"@[3] == 'w',
        "show_disk_io"@[4] == '_',
        "show_disk_io"@[5] == 'd',
        "show_disk_io"@[6] == 'i',
        "show_disk_io"@[7] == 's',
        "show_disk_io"@[8] == 'k',
        "show_disk_io"@[9] == '_',
        "show_disk_io"@[10] == 'i',
        "show_disk_io"@[11] == 'o',
        "show_clock"@.len() == 10,
        "show_clock"@[0] == 's',
        "show_clock"@[1] == 'h',
        "show_clock"@[2] == 'o',
        "show_clock"@[3] == 'w',
        "show_clock"@[4] == '_',
        "show_clock"@[5] == 'c',
        "show_clock"@[6] == 'l',
        "show_clock"@[7] == 'o',
        "show_clock"@[8] == 'c',
        "show_clock"@[9] == 'k',
        "show_hostname"@.len() == 13,
        "show_hostname"@[0] == 's',
        "show_hostname"@[1] == 'h',
        "show_hostname"@[2] == 'o',
        "show_hostname"@[3] == 'w',
        "show_hostname"@[4] == '_',
        "show_hostname"@[5] == 'h',
        "show_hostname"@[6] == 'o',
        "show_hostname"@[7] == 's',
        "show_hostname"@[8] == 't',
        "show_hostname"@[9] == 'n',
        "show_hostname"@[10] == 'a',
        "show_hostname"@[11] == 'm',
        "show_hostname"@[12] == 'e',
        "show_battery"@.len() == 12,
        "show_battery"@[0] == 's',
        "show_battery"@[1] == 'h',
        "show_battery"@[2] == 'o',
        "show_battery"@[3] == 'w',
        "show_battery"@[4] == '_',
        "show_battery"@[5] == 'b',
        "show_battery"@[6] == 'a',
        "show_battery"@[7] == 't',
        "show_battery"@[8] == 't',
        "show_battery"@[9] == 'e',
        "show_battery"@[10] == 'r',
        "show_battery"@[11] == 'y',
        "cpu_meter_mode"@.len() == 14,
        "cpu_meter_mode"@[0] == 'c',
        "cpu_meter_mode"@[1] == 'p',
        "cpu_meter_mode"@[2] == 'u',
        "cpu_meter_mode"@[3] == '_',
        "cpu_meter_mode"@[4] == 'm',
        "cpu_meter_mode"@[5] == 'e',
        "cpu_meter_mode"@[6] == 't',
        "cpu_meter_mode"@[7] == 'e',
        "cpu_meter_mode"@[8] == 'r',
        "cpu_meter_mode"@[9] == '_',
        "cpu_meter_mode"@[10] == 'm',
        "cpu_meter_mode"@[11] == 'o',
        "cpu_meter_mode"@[12] == 'd',
        "cpu_meter_mode"@[13] == 'e',
        "memory_meter_mode"@.len() == 17,
        "memory_meter_mode"@[0] == 'm',
        "memory_meter_mode"@[1] == 'e',
        "memory_meter_mode"@[2] == 'm',
        "memory_meter_mode"@[3] == 'o',
        "memory_meter_mode"@[4] == 'r',
        "memory_meter_mode"@[5] == 'y',
        "memory_meter_mode"@[6] == '_',
        "memory_meter_mode"@[7] == 'm',
        "memory_meter_mode"@[8] == 'e',
        "memory_meter_mode"@[9] == 't',
        "memory_meter_mode"@[10] == 'e',
        "memory_meter_mode"@[11] == 'r',
        "memory_meter_mode"@[12] == '_',
        "memory_meter_mode"@[13] == 'm',
        "memory_meter_mode"@[14] == 'o',
        "memory_meter_mode"@[15] == 'd',
        "memory_meter_mode"@[16] == 'e',
        "visible_columns"@.len() == 15,
        "visible_columns"@[0] == 'v',
        "visible_columns"@[1] == 'i',
        "visible_columns"@[2] == 's',
        "visible_columns"@[3] == 'i',
        "visible_columns"@[4] == 'b',
        "visible_columns"@[5] == 'l',
        "visible_columns"@[6] == 'e',
        "visible_columns"@[7] == '_',
        "visible_columns"@[8] == 'c',
        "visible_columns"@[9] == 'o',
        "visible_columns"@[10] == 'l',
        "visible_columns"@[11] == 'u',
        "visible_columns"@[12] == 'm',
        "visible_columns"@[13] == 'n',
        "visible_columns"@[14] == 's',
        "mouse_enabled"@.len() == 13,
        "mouse_enabled"@[0] == 'm',
        "mouse_enabled"@[1] == 'o',
        "mouse_enabled"@[2] == 'u',
        "mouse_enabled"@[3] == 's',
        "mouse_enabled"@[4] == 'e',
        "mouse_enabled"@[5] == '_',
        "mouse_enabled"@[6] == 'e',
        "mouse_enabled"@[7] == 'n',
        "mouse_enabled"@[8] == 'a',
        "mouse_enabled"@[9] == 'b',
        "mouse_enabled"@[10] == 'l',
        "mouse_enabled"@[11] == 'e',
        "mouse_enabled"@[12] == 'd',
        "readonly"@.len() == 8,
        "readonly"@[0] == 'r',
        "readonly"@[1] == 'e',
        "readonly"@[2] == 'a',
        "readonly"@[3] == 'd',
        "readonly"@[4] == 'o',
        "readonly"@[5] == 'n',
        "readonly"@[6] == 'l',
        "readonly"@[7] == 'y',
        "confirm_kill"@.len() == 12,
        "confirm_kill"@[0] == 'c',
        "confirm_kill"@[1] == 'o',
        "confirm_kill"@[2] == 'n',
        "confirm_kill"@[3] == 'f',
        "confirm_kill"@[4] == 'i',
        "confirm_kill"@[5] == 'r',
        "confirm_kill"@[6] == 'm',
        "confirm_kill"@[7] == '_',
        "confirm_kill"@[8] == 'k',
        "confirm_kill"@[9] == 'i',
        "confirm_kill"@[10] == 'l',
        "confirm_kill"@[11] == 'l',
{
    reveal_strlit("refresh_rate_ms");
    reveal_strlit("tree_view_default");
    reveal_strlit("color_scheme");
    reveal_strlit("show_kernel_threads");
    reveal_strlit("show_user_threads");
    reveal_strlit("show_program_path");
    reveal_strlit("highlight_running");
    reveal_strlit("highlight_large_numbers");
    reveal_strlit("highlight_new_processes");
    reveal_strlit("highlight_duration_ms");
    reveal_strlit("highlight_basename");
    reveal_strlit("show_cpu_meters");
    reveal_strlit("show_memory_meter");
    reveal_strlit("show_swap_meter");
    reveal_strlit("show_tasks_meter");
    reveal_strlit("show_uptime_meter");
    reveal_strlit("show_load_average");
    reveal_strlit("show_network_io");
    reveal_strlit("show_disk_io");
    reveal_strlit("show_clock");
    reveal_strlit("show_hostname");
    reveal_strlit("show_battery");
    reveal_strlit("cpu_meter_mode");
    reveal_strlit("memory_meter_mode");
    reveal_strlit("visible_columns");
    reveal_strlit("mouse_enabled");
    reveal_strlit("readonly");
    reveal_strlit("confirm_kill");
}

/// `lookup` finds the entry at `k` when no earlier entry has its key.
pub proof fn lemma_lookup_at(entries: Seq<(String, Value)>, key: Seq<char>, k: int)
    requires
        0 <= k < entries.len(),
        entries[k].0@ == key,
        forall|j: int| 0 <= j < k ==> entries[j].0@ != key,
    ensures
        lookup(entries, key) == Some(entries[k].1),
    decreases k,
{
    if k > 0 {
        let t = entries.drop_first();
        assert forall|j: int| 0 <= j < k - 1 implies t[j].0@ != key by {
            assert(t[j] == entries[j + 1]);
        }
        lemma_lookup_at(t, key, k - 1);
    }
}

/// An array of string values reads back as its strings.
pub proof fn lemma_string_items(items: Seq<Value>, strings: Seq<Seq<char>>)
    requires
        string_values(items, strings),
    ensures
        string_items(items) == strings,
    decreases items.len(),
{
    if items.len() > 0 {
        let a = items.drop_last();
        let b = strings.drop_last();
        assert(string_values(a, b)) by {
            assert forall|i: int| 0 <= i < a.len() implies #[trigger] a[i].spec_as_str() == Some(b[i]) by {
                assert(a[i] == items[i]);
                assert(items[i].spec_as_str() == Some(strings[i]));
            }
        }
        lemma_string_items(a, b);
        assert(items.last().spec_as_str() == Some(strings[items.len() - 1]));
        assert(b.push(strings.last()) =~= strings);
    }
}

/// Writing the settings to JSON and reading them back gives the same
/// settings, for every number that fits the JSON number type.
pub proof fn config_json_round_trip(c: Config, v: Value, r: Config)
    requires
        v matches Value::Object(entries) && config_json_entries(c, entries@),
        config_read_from(v, r),
        c.refresh_rate_ms <= i64::MAX,
        c.highlight_duration_ms <= i64::MAX,
    ensures
        same_settings_but_collapsed(r, c),
        r.visible_columns.deep_view() == c.visible_columns.deep_view(),
{
    lemma_settings_keys_spelled();
    let es = match v {
        Value::Object(entries) => entries@,
        _ => Seq::empty(),
    };
    assert(lookup(es, "refresh_rate_ms"@) == Some(es[0].1)) by {
        lemma_lookup_at(es, "refresh_rate_ms"@, 0);
    }
    assert(lookup(es, "tree_view_default"@) == Some(es[1].1)) by {
        assert forall|j: int| 0 <= j < 1 implies es[j].0@ != "tree_view_default"@ by {
            assert(j == 0);
        }
        lemma_lookup_at(es, "tree_view_default"@, 1);
    }
    assert(lookup(es, "color_scheme"@) == Some(es[2].1)) by {
        assert forall|j: int| 0 <= j < 2 implies es[j].0@ != "color_scheme"@ by {
            assert(j == 0 || j == 1);
        }
        lemma_lookup_at(es, "color_scheme"@, 2);
    }
    color_scheme_name_round_trip(c.color_scheme);
    assert(lookup(es, "show_kernel_threads"@) == Some(es[3].1)) by {
        assert forall|j: int| 0 <= j < 3 implies es[j].0@ != "show_kernel_threads"@ by {
            assert(j == 0 || j == 1 || j == 2);
        }
        lemma_lookup_at(es, "show_kernel_threads"@, 3);
    }
    assert(lookup(es, "show_user_threads"@) == Some(es[4].1)) by {
        assert forall|j: int| 0 <= j < 4 implies es[j].0@ != "show_user_threads"@ by {
            assert(j == 0 || j == 1 || j == 2 || j == 3);
        }
        lemma_lookup_at(es, "show_user_threads"@, 4);
    }
    assert(lookup(es, "show_program_path"@) == Some(es[5].1)) by {
        assert forall|j: int| 0 <= j < 5 implies es[j].0@ != "show_program_path"@ by {
            assert(j == 0 || j == 1 || j == 2 || j == 3 || j == 4);
        }
        lemma_lookup_at(es, "show_program_path"@, 5);
    }
    assert(lookup(es, "highlight_running"@) == Some(es[6].1)) by {
        assert forall|j: int| 0 <= j < 6 implies es[j].0@ != "highlight_running"@ by {
            assert(j == 0 || j == 1 || j == 2 || j == 3 || j == 4 || j == 5);
        }
        lemma_lookup_at(es, "highlight_running"@, 6);
    }
    assert(lookup(es, "highlight_large_numbers"@) == Some(es[7].1)) by {
        assert forall|j: int| 0 <= j < 7 implies es[j].0@ != "highlight_large_numbers"@ by {
            assert(j == 0 || j == 1 || j == 2 || j == 3 || j == 4 || j == 5 || j == 6);
        }
        lemma_lookup_at(es, "highlight_large_numbers"@, 7);
    }
    assert(lookup(es, "highlight_new_processes"@) == Some(es[8].1)) by {
        assert forall|j: int| 0 <= j < 8 implies es[j].0@ != "highlight_new_processes"@ by {
            assert(j == 0 || j == 1 || j == 2 || j == 3 || j == 4 || j == 5 || j == 6 || j == 7);
        }
        lemma_lookup_at(es, "highlight_new_processes"@, 8);
    }
    assert(lookup(es, "highlight_duration_ms"@) == Some(es[9].1)) by {
        assert forall|j: int| 0 <= j < 9 implies es[j].0@ != "highlight_duration_ms"@ by {
            assert(j == 0 || j == 1 || j == 2 || j == 3 || j == 4 || j == 5 || j == 6 || j == 7 || j == 8);
        }
        lemma_lookup_at(es, "highlight_duration_ms"@, 9);
    }
    assert(lookup(es, "highlight_basename"@) == Some(es[10].1)) by {
        assert forall|j: int| 0 <= j < 10 implies es[j].0@ != "highlight_basename"@ by {
            assert(j == 0 || j == 1 || j == 2 || j == 3 || j == 4 || j == 5 || j == 6 || j == 7 || j == 8 || j == 9);
        }
        lemma_lookup_at(es, "highlight_basename"@, 10);
    }
    assert(lookup(es, "show_cpu_meters"@) == Some(es[11].1)) by {
        assert forall|j: int| 0 <= j < 11 implies es[j].0@ != "show_cpu_meters"@ by {
            assert(j == 0 || j == 1 || j == 2 || j == 3 || j == 4 || j == 5 || j == 6 || j == 7 || j == 8 || j == 9 || j == 10);
        }
        lemma_lookup_at(es, "show_cpu_meters"@, 11);
    }
    assert(lookup(es, "show_memory_meter"@) == Some(es[12].1)) by {
        assert forall|j: int| 0 <= j < 12 implies es[j].0@ != "show_memory_meter"@ by {
            assert(j == 0 || j == 1 || j == 2 || j == 3 || j == 4 || j == 5 || j == 6 || j == 7 || j == 8 || j == 9 || j == 10 || j == 11);
        }
        lemma_lookup_at(es, "show_memory_meter"@, 12);
    }
    assert(lookup(es, "show_swap_meter"@) == Some(es[13].1)) by {
        assert forall|j: int| 0 <= j < 13 implies es[j].0@ != "show_swap_meter"@ by {
            assert(j == 0 || j == 1 || j == 2 || j == 3 || j == 4 || j == 5 || j == 6 || j == 7 || j == 8 || j == 9 || j == 10 || j == 11 || j == 12);
        }
        lemma_lookup_at(es, "show_swap_meter"@, 13);
    }
    assert(lookup(es, "show_tasks_meter"@) == Some(es[14].1)) by {
        assert forall|j: int| 0 <= j < 14 implies es[j].0@ != "show_tasks_meter"@ by {
            assert(j == 0 || j == 1 || j == 2 || j == 3 || j == 4 || j == 5 || j == 6 || j == 7 || j == 8 || j == 9 || j == 10 || j == 11 || j == 12 || j == 13);
        }
        lemma_lookup_at(es, "show_tasks_meter"@, 14);
    }
    assert(lookup(es, "show_uptime_meter"@) == Some(es[15].1)) by {
        assert forall|j: int| 0 <= j < 15 implies es[j].0@ != "show_uptime_meter"@ by {
            assert(j == 0 || j == 1 || j == 2 || j == 3 || j == 4 || j == 5 || j == 6 || j == 7 || j == 8 || j == 9 || j == 10 || j == 11 || j == 12 || j == 13 || j == 14);
        }
        lemma_lookup_at(es, "show_uptime_meter"@, 15);
    }
    assert(lookup(es, "show_load_average"@) == Some(es[16].1)) by {
        assert forall|j: int| 0 <= j < 16 implies es[j].0@ != "show_load_average"@ by {
            assert(j == 0 || j == 1 || j == 2 || j == 3 || j == 4 || j == 5 || j == 6 || j == 7 || j == 8 || j == 9 || j == 10 || j == 11 || j == 12 || j == 13 || j == 14 || j == 15);
        }
        lemma_lookup_at(es, "show_load_average"@, 16);
    }
    assert(lookup(es, "show_network_io"@) == Some(es[17].1)) by {
        assert forall|j: int| 0 <= j < 17 implies es[j].0@ != "show_network_io"@ by {
            assert(j == 0 || j == 1 || j == 2 || j == 3 || j == 4 || j == 5 || j == 6 || j == 7 || j == 8 || j == 9 || j == 10 || j == 11 || j == 12 || j == 13 || j == 14 || j == 15 || j == 16);
        }
        lemma_lookup_at(es, "show_network_io"@, 17);
    }
    assert(lookup(es, "show_disk_io"@) == Some(es[18].1)) by {
        assert forall|j: int| 0 <= j < 18 implies es[j].0@ != "show_disk_io"@ by {
            assert(j == 0 || j == 1 || j == 2 || j == 3 || j == 4 || j == 5 || j == 6 || j == 7 || j == 8 || j == 9 || j == 10 || j == 11 || j == 12 || j == 13 || j == 14 || j == 15 || j == 16 || j == 17);
        }
        lemma_lookup_at(es, "show_disk_io"@, 18);
    }
    assert(lookup(es, "show_clock"@) == Some(es[19].1)) by {
        assert forall|j: int| 0 <= j < 19 implies es[j].0@ != "show_clock"@ by {
            assert(j == 0 || j == 1 || j == 2 || j == 3 || j == 4 || j == 5 || j == 6 || j == 7 || j == 8 || j == 9 || j == 10 || j == 11 || j == 12 || j == 13 || j == 14 || j == 15 || j == 16 || j == 17 || j == 18);
        }
        lemma_lookup_at(es, "show_clock"@, 19);
    }
    assert(lookup(es, "show_hostname"@) == Some(es[20].1)) by {
        assert forall|j: int| 0 <= j < 20 implies es[j].0@ != "show_hostname"@ by {
            assert(j == 0 || j == 1 || j == 2 || j == 3 || j == 4 || j == 5 || j == 6 || j == 7 || j == 8 || j == 9 || j == 10 || j == 11 || j == 12 || j == 13 || j == 14 || j == 15 || j == 16 || j == 17 || j == 18 || j == 19);
        }
        lemma_lookup_at(es, "show_hostname"@, 20);
    }
    assert(lookup(es, "show_battery"@) == Some(es[21].1)) by {
        assert forall|j: int| 0 <= j < 21 implies es[j].0@ != "show_battery"@ by {
            assert(j == 0 || j == 1 || j == 2 || j == 3 || j == 4 || j == 5 || j == 6 || j == 7 || j == 8 || j == 9 || j == 10 || j == 11 || j == 12 || j == 13 || j == 14 || j == 15 || j == 16 || j == 17 || j == 18 || j == 19 || j == 20);
        }
        lemma_lookup_at(es, "show_battery"@, 21);
    }
    assert(lookup(es, "cpu_meter_mode"@) == Some(es[22].1)) by {
        assert forall|j: int| 0 <= j < 22 implies es[j].0@ != "cpu_meter_mode"@ by {
            assert(j == 0 || j == 1 || j == 2 || j == 3 || j == 4 || j == 5 || j == 6 || j == 7 || j == 8 || j == 9 || j == 10 || j == 11 || j == 12 || j == 13 || j == 14 || j == 15 || j == 16 || j == 17 || j == 18 || j == 19 || j == 20 || j == 21);
        }
        lemma_lookup_at(es, "cpu_meter_mode"@, 22);
    }
    meter_mode_name_round_trip(c.cpu_meter_mode);
    assert(lookup(es, "memory_meter_mode"@) == Some(es[23].1)) by {
        assert forall|j: int| 0 <= j < 23 implies es[j].0@ != "memory_meter_mode"@ by {
            assert(j == 0 || j == 1 || j == 2 || j == 3 || j == 4 || j == 5 || j == 6 || j == 7 || j == 8 || j == 9 || j == 10 || j == 11 || j == 12 || j == 13 || j == 14 || j == 15 || j == 16 || j == 17 || j == 18 || j == 19 || j == 20 || j == 21 || j == 22);
        }
        lemma_lookup_at(es, "memory_meter_mode"@, 23);
    }
    meter_mode_name_round_trip(c.memory_meter_mode);
    assert(lookup(es, "visible_columns"@) == Some(es[24].1)) by {
        assert forall|j: int| 0 <= j < 24 implies es[j].0@ != "visible_columns"@ by {
            assert(j == 0 || j == 1 || j == 2 || j == 3 || j == 4 || j == 5 || j == 6 || j == 7 || j == 8 || j == 9 || j == 10 || j == 11 || j == 12 || j == 13 || j == 14 || j == 15 || j == 16 || j == 17 || j == 18 || j == 19 || j == 20 || j == 21 || j == 22 || j == 23);
        }
        lemma_lookup_at(es, "visible_columns"@, 24);
    }
    match es[24].1 {
        Value::Array(items) => lemma_string_items(items@, c.visible_columns.deep_view()),
        _ => {},
    }
    assert(lookup(es, "mouse_enabled"@) == Some(es[25].1)) by {
        assert forall|j: int| 0 <= j < 25 implies es[j].0@ != "mouse_enabled"@ by {
            assert(j == 0 || j == 1 || j == 2 || j == 3 || j == 4 || j == 5 || j == 6 || j == 7 || j == 8 || j == 9 || j == 10 || j == 11 || j == 12 || j == 13 || j == 14 || j == 15 || j == 16 || j == 17 || j == 18 || j == 19 || j == 20 || j == 21 || j == 22 || j == 23 || j == 24);
        }
        lemma_lookup_at(es, "mouse_enabled"@, 25);
    }
    assert(lookup(es, "readonly"@) == Some(es[26].1)) by {
        assert forall|j: int| 0 <= j < 26 implies es[j].0@ != "readonly"@ by {
            assert(j == 0 || j == 1 || j == 2 || j == 3 || j == 4 || j == 5 || j == 6 || j == 7 || j == 8 || j == 9 || j == 10 || j == 11 || j == 12 || j == 13 || j == 14 || j == 15 || j == 16 || j == 17 || j == 18 || j == 19 || j == 20 || j == 21 || j == 22 || j == 23 || j == 24 || j == 25);
        }
        lemma_lookup_at(es, "readonly"@, 26);
    }
    assert(lookup(es, "confirm_kill"@) == Some(es[27].1)) by {
        assert forall|j: int| 0 <= j < 27 implies es[j].0@ != "confirm_kill"@ by {
            assert(j == 0 || j == 1 || j == 2 || j == 3 || j == 4 || j == 5 || j == 6 || j == 7 || j == 8 || j == 9 || j == 10 || j == 11 || j == 12 || j == 13 || j == 14 || j == 15 || j == 16 || j == 17 || j == 18 || j == 19 || j == 20 || j == 21 || j == 22 || j == 23 || j == 24 || j == 25 || j == 26);
        }
        lemma_lookup_at(es, "confirm_kill"@, 27);
    }
}

/// `a` and `b` agree on every persisted setting but the visible columns.
pub open spec fn same_settings_but_collapsed(a: Config, b: Config) -> bool {
    &&& a.refresh_rate_ms == b.refresh_rate_ms
    &&& a.tree_view_default == b.tree_view_default
    &&& a.color_scheme == b.color_scheme
    &&& a.show_kernel_threads == b.show_kernel_threads
    &&& a.show_user_threads == b.show_user_threads
    &&& a.show_program_path == b.show_program_path
    &&& a.highlight_running == b.highlight_running
    &&& a.highlight_large_numbers == b.highlight_large_numbers
    &&& a.highlight_new_processes == b.highlight_new_processes
    &&& a.highlight_duration_ms == b.highlight_duration_ms
    &&& a.highlight_basename == b.highlight_basename
    &&& a.show_cpu_meters == b.show_cpu_meters
    &&& a.show_memory_meter == b.show_memory_meter
    &&& a.show_swap_meter == b.show_swap_meter
    &&& a.show_tasks_meter == b.show_tasks_meter
    &&& a.show_uptime_meter == b.show_uptime_meter
    &&& a.show_load_average == b.show_load_average
    &&& a.show_network_io == b.show_network_io
    &&& a.show_disk_io == b.show_disk_io
    &&& a.show_clock == b.show_clock
    &&& a.show_hostname == b.show_hostname
    &&& a.show_battery == b.show_battery
    &&& a.cpu_meter_mode == b.cpu_meter_mode
    &&& a.memory_meter_mode == b.memory_meter_mode
    &&& a.mouse_enabled == b.mouse_enabled
    &&& a.readonly == b.readonly
    &&& a.confirm_kill == b.confirm_kill
}

} // verus!
