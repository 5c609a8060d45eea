//! Command-line options and how they override the loaded settings for one
//! session.

use vstd::prelude::*;
use crate::config::{Config, ColorScheme};

verus! {

/// Command-line arguments
#[derive(Debug)]
pub struct Args {
    pub delay: Option<u64>,
    pub user: Option<String>,
    pub tree: bool,
    pub sort: Option<String>,
    pub no_mouse: bool,
    pub no_color: bool,
    pub pids: Option<Vec<u32>>,
    pub filter: Option<String>,
    pub max_iterations: Option<u64>,
    pub no_meters: bool,
    pub readonly: bool,
    pub highlight_changes: Option<u64>,
    pub help: bool,
    pub version: bool,
    pub benchmark: Option<u64>,
    pub inefficient: bool,
    pub install: bool,
    pub update: bool,
    pub force: bool,
    pub gpu_debug: bool,
    pub cpu_debug: bool,
}

impl Default for Args {
    fn default() -> (r: Args)
        ensures
            r.delay is None && r.user is None && r.sort is None && r.pids is None && r.filter is None,
            r.max_iterations is None && r.highlight_changes is None && r.benchmark is None,
            !r.tree && !r.no_mouse && !r.no_color && !r.no_meters && !r.readonly && !r.help,
            !r.version && !r.inefficient && !r.install && !r.update && !r.force && !r.gpu_debug,
            !r.cpu_debug,
    {
        Args {
            delay: None,
            user: None,
            tree: false,
            sort: None,
            no_mouse: false,
            no_color: false,
            pids: None,
            filter: None,
            max_iterations: None,
            no_meters: false,
            readonly: false,
            highlight_changes: None,
            help: false,
            version: false,
            benchmark: None,
            inefficient: false,
            install: false,
            update: false,
            force: false,
            gpu_debug: false,
            cpu_debug: false,
        }
    }
}

/// `c` and `d` agree on every setting the command line does not override.
pub open spec fn same_unoverridden(c: Config, d: Config) -> bool {
    &&& c.show_kernel_threads == d.show_kernel_threads
    &&& c.show_user_threads == d.show_user_threads
    &&& c.show_program_path == d.show_program_path
    &&& c.highlight_running == d.highlight_running
    &&& c.highlight_large_numbers == d.highlight_large_numbers
    &&& c.highlight_basename == d.highlight_basename
    &&& c.show_cpu_meters == d.show_cpu_meters
    &&& c.show_memory_meter == d.show_memory_meter
    &&& c.show_swap_meter == d.show_swap_meter
    &&& c.show_tasks_meter == d.show_tasks_meter
    &&& c.show_uptime_meter == d.show_uptime_meter
    &&& c.show_load_average == d.show_load_average
    &&& c.show_network_io == d.show_network_io
    &&& c.show_disk_io == d.show_disk_io
    &&& c.show_clock == d.show_clock
    &&& c.show_hostname == d.show_hostname
    &&& c.show_battery == d.show_battery
    &&& c.cpu_meter_mode == d.cpu_meter_mode
    &&& c.memory_meter_mode == d.memory_meter_mode
    &&& c.visible_columns@ == d.visible_columns@
    &&& c.mouse_enabled == d.mouse_enabled
    &&& c.readonly == d.readonly
    &&& c.confirm_kill == d.confirm_kill
    &&& c.collapsed_pids@ == d.collapsed_pids@
}

fn set_overrides(config: &mut Config, rate: u64, tree: bool, scheme: ColorScheme, highlight: bool, duration: u64)
    ensures
        same_unoverridden(*final(config), *old(config)),
        final(config).refresh_rate_ms == rate,
        final(config).tree_view_default == tree,
        final(config).color_scheme == scheme,
        final(config).highlight_new_processes == highlight,
        final(config).highlight_duration_ms == duration,
{
    config.refresh_rate_ms = rate;
    config.tree_view_default = tree;
    config.color_scheme = scheme;
    config.highlight_new_processes = highlight;
    config.highlight_duration_ms = duration;
}

/// Apply the command-line overrides to the loaded settings: a delay (at
/// least 100 ms), tree view, monochrome colors, and highlighting of changes
/// for the given number of seconds. Read-only mode is a session policy and
/// is not written into the settings.
pub fn apply_config_overrides(config: &mut Config, args: &Args)
    ensures
        same_unoverridden(*final(config), *old(config)),
        final(config).refresh_rate_ms == match args.delay {
            Some(d) => if d > 100 { d } else { 100 },
            None => old(config).refresh_rate_ms,
        },
        final(config).tree_view_default == (args.tree || old(config).tree_view_default),
        final(config).color_scheme == if args.no_color {
            ColorScheme::Monochrome
        } else {
            old(config).color_scheme
        },
        final(config).highlight_new_processes == (args.highlight_changes is Some
            || old(config).highlight_new_processes),
        final(config).highlight_duration_ms == match args.highlight_changes {
            Some(s) => if s * 1000 > u64::MAX { u64::MAX } else { (s * 1000) as u64 },
            None => old(config).highlight_duration_ms,
        },
{
    let refresh_rate_ms = match args.delay {
        Some(delay) => if delay > 100 { delay } else { 100 },
        None => config.refresh_rate_ms,
    };
    let tree_view_default = args.tree || config.tree_view_default;
    let color_scheme = if args.no_color { ColorScheme::Monochrome } else { config.color_scheme };
    let highlight_new_processes = args.highlight_changes.is_some() || config.highlight_new_processes;
    let highlight_duration_ms = match args.highlight_changes {
        Some(delay) => if delay > u64::MAX / 1000 { u64::MAX } else { delay * 1000 },
        None => config.highlight_duration_ms,
    };
    set_overrides(config, refresh_rate_ms, tree_view_default, color_scheme, highlight_new_processes, highlight_duration_ms);
}

} // verus!
