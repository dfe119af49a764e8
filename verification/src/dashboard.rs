//! The panels of the dashboard and the decisions of its navigation.
use vstd::prelude::*;

use crate::cli::TrafficUnit;
use crate::connections::{ConnectionState, ConnectionStats, NetworkConnection};
use crate::input::InputEvent;
use crate::intelligence::{history_counts, ConnectionIntelligence, IpAddr};

verus! {

/// Number of dashboard panels.
pub const PANEL_COUNT: usize = 10;

#[derive(Clone, Copy, Debug, PartialEq, Eq, Structural)]
pub enum DashboardPanel {
    Overview,
    Interfaces,
    Connections,
    Processes,
    System,
    Graphs,
    Diagnostics,
    Alerts,
    Forensics,
    Settings,
}

/// The panels in tab order.
pub open spec fn panel_at(i: int) -> DashboardPanel {
    if i == 0 {
        DashboardPanel::Overview
    } else if i == 1 {
        DashboardPanel::Interfaces
    } else if i == 2 {
        DashboardPanel::Connections
    } else if i == 3 {
        DashboardPanel::Processes
    } else if i == 4 {
        DashboardPanel::System
    } else if i == 5 {
        DashboardPanel::Graphs
    } else if i == 6 {
        DashboardPanel::Diagnostics
    } else if i == 7 {
        DashboardPanel::Alerts
    } else if i == 8 {
        DashboardPanel::Forensics
    } else {
        DashboardPanel::Settings
    }
}

pub open spec fn panel_title(p: DashboardPanel) -> Seq<char> {
    match p {
        DashboardPanel::Overview => "Overview"@,
        DashboardPanel::Interfaces => "Interfaces"@,
        DashboardPanel::Connections => "Connections"@,
        DashboardPanel::Processes => "Processes"@,
        DashboardPanel::System => "System Info"@,
        DashboardPanel::Graphs => "Graphs"@,
        DashboardPanel::Diagnostics => "Active Diagnostics"@,
        DashboardPanel::Alerts => "Network Alerts"@,
        DashboardPanel::Forensics => "Security Forensics"@,
        DashboardPanel::Settings => "Settings"@,
    }
}

impl DashboardPanel {
    /// All panels, in tab order.
    pub fn all() -> (r: Vec<DashboardPanel>)
        ensures
            r@.len() == PANEL_COUNT,
            forall|i: int| 0 <= i < PANEL_COUNT ==> #[trigger] r@[i] == panel_at(i),
    {
        let r = vec![
            DashboardPanel::Overview,
            DashboardPanel::Interfaces,
            DashboardPanel::Connections,
            DashboardPanel::Processes,
            DashboardPanel::System,
            DashboardPanel::Graphs,
            DashboardPanel::Diagnostics,
            DashboardPanel::Alerts,
            DashboardPanel::Forensics,
            DashboardPanel::Settings,
        ];
        r
    }

    /// The panel's tab title.
    pub fn title(&self) -> (r: &'static str)
        ensures
            r@ == panel_title(*self),
    {
        match self {
            DashboardPanel::Overview => "Overview",
            DashboardPanel::Interfaces => "Interfaces",
            DashboardPanel::Connections => "Connections",
            DashboardPanel::Processes => "Processes",
            DashboardPanel::System => "System Info",
            DashboardPanel::Graphs => "Graphs",
            DashboardPanel::Diagnostics => "Active Diagnostics",
            DashboardPanel::Alerts => "Network Alerts",
            DashboardPanel::Forensics => "Security Forensics",
            DashboardPanel::Settings => "Settings",
        }
    }
}

fn panel_at_exec(i: usize) -> (p: DashboardPanel)
    ensures
        p == panel_at(i as int),
{
    if i == 0 {
        DashboardPanel::Overview
    } else if i == 1 {
        DashboardPanel::Interfaces
    } else if i == 2 {
        DashboardPanel::Connections
    } else if i == 3 {
        DashboardPanel::Processes
    } else if i == 4 {
        DashboardPanel::System
    } else if i == 5 {
        DashboardPanel::Graphs
    } else if i == 6 {
        DashboardPanel::Diagnostics
    } else if i == 7 {
        DashboardPanel::Alerts
    } else if i == 8 {
        DashboardPanel::Forensics
    } else {
        DashboardPanel::Settings
    }
}

/// The unit after `u` in the dashboard's own cycle: b, k, m, g, B, K, M,
/// G, h, H, b, ...
pub open spec fn dashboard_unit_next(u: TrafficUnit) -> TrafficUnit {
    match u {
        TrafficUnit::Bit => TrafficUnit::KiloBit,
        TrafficUnit::KiloBit => TrafficUnit::MegaBit,
        TrafficUnit::MegaBit => TrafficUnit::GigaBit,
        TrafficUnit::GigaBit => TrafficUnit::Byte,
        TrafficUnit::Byte => TrafficUnit::KiloByte,
        TrafficUnit::KiloByte => TrafficUnit::MegaByte,
        TrafficUnit::MegaByte => TrafficUnit::GigaByte,
        TrafficUnit::GigaByte => TrafficUnit::HumanBit,
        TrafficUnit::HumanBit => TrafficUnit::HumanByte,
        TrafficUnit::HumanByte => TrafficUnit::Bit,
    }
}

/// Navigation state of the dashboard.
#[derive(Debug, Clone, Copy, PartialEq, Eq, Structural)]
pub struct DashboardNav {
    pub panel_index: usize,
    pub active_panel: DashboardPanel,
    /// Selected row in the panel's list.
    pub selected_item: usize,
    pub current_device_index: usize,
    pub paused: bool,
    pub show_help: bool,
    pub traffic_unit: TrafficUnit,
    /// Set by panel changes: redraw at once, bypassing throttling.
    pub navigation_redraw_needed: bool,
}

/// What the dashboard loop does after a command.
#[derive(Clone, Copy, Debug, PartialEq, Eq, Structural)]
pub enum DashboardAction {
    Continue,
    Quit,
    ZoomIn,
    ZoomOut,
    SaveSettings,
    ReloadSettings,
    /// Restart every device's statistics.
    ResetAll,
}

/// The panel index names a panel and the active panel is that one.
pub open spec fn nav_ok(n: DashboardNav) -> bool {
    n.panel_index < PANEL_COUNT && n.active_panel == panel_at(n.panel_index as int)
}

/// The navigation after moving to panel `i`: selection reset, redraw
/// requested.
pub open spec fn at_panel(n: DashboardNav, i: int) -> DashboardNav {
    DashboardNav {
        panel_index: i as usize,
        active_panel: panel_at(i),
        selected_item: 0,
        navigation_redraw_needed: true,
        ..n
    }
}

/// The effect of a command on the dashboard with `devices` devices: new
/// navigation state, the loop's action, and whether to redraw.
pub open spec fn dashboard_step(n: DashboardNav, e: InputEvent, devices: usize) -> (
    DashboardNav,
    DashboardAction,
    bool,
) {
    match e {
        InputEvent::Quit => (n, DashboardAction::Quit, false),
        InputEvent::NextPanel => (
            at_panel(
                n,
                if n.panel_index >= PANEL_COUNT - 1 {
                    0
                } else {
                    n.panel_index + 1
                },
            ),
            DashboardAction::Continue,
            true,
        ),
        InputEvent::PrevPanel => (
            at_panel(
                n,
                if n.panel_index == 0 {
                    PANEL_COUNT - 1
                } else {
                    n.panel_index - 1
                },
            ),
            DashboardAction::Continue,
            true,
        ),
        InputEvent::NextItem => if n.active_panel is Interfaces {
            (
                if devices > 0 {
                    DashboardNav {
                        selected_item: ((n.selected_item + 1) % (devices as int)) as usize,
                        ..n
                    }
                } else {
                    n
                },
                DashboardAction::Continue,
                true,
            )
        } else if n.active_panel is Graphs && devices > 0 {
            (
                DashboardNav {
                    current_device_index: ((n.current_device_index + 1) % (devices as int)) as usize,
                    ..n
                },
                DashboardAction::Continue,
                true,
            )
        } else {
            (n, DashboardAction::Continue, false)
        },
        InputEvent::PrevItem => if n.active_panel is Interfaces {
            (
                if devices > 0 {
                    DashboardNav {
                        selected_item: if n.selected_item == 0 {
                            (devices - 1) as usize
                        } else {
                            (n.selected_item - 1) as usize
                        },
                        ..n
                    }
                } else {
                    n
                },
                DashboardAction::Continue,
                true,
            )
        } else if n.active_panel is Graphs && devices > 0 {
            (
                DashboardNav {
                    current_device_index: if n.current_device_index == 0 {
                        (devices - 1) as usize
                    } else {
                        (n.current_device_index - 1) as usize
                    },
                    ..n
                },
                DashboardAction::Continue,
                true,
            )
        } else {
            (n, DashboardAction::Continue, false)
        },
        InputEvent::NextDevice => (
            DashboardNav {
                current_device_index: ((n.current_device_index + 1) % (devices as int)) as usize,
                ..n
            },
            DashboardAction::Continue,
            true,
        ),
        InputEvent::PrevDevice => (
            DashboardNav {
                current_device_index: if n.current_device_index == 0 {
                    (devices - 1) as usize
                } else {
                    (n.current_device_index - 1) as usize
                },
                ..n
            },
            DashboardAction::Continue,
            true,
        ),
        InputEvent::Pause => (DashboardNav { paused: !n.paused, ..n }, DashboardAction::Continue, true),
        InputEvent::ShowOptions => (
            DashboardNav { show_help: !n.show_help, ..n },
            DashboardAction::Continue,
            true,
        ),
        InputEvent::SaveSettings => (n, DashboardAction::SaveSettings, false),
        InputEvent::ReloadSettings => (n, DashboardAction::ReloadSettings, false),
        InputEvent::Reset => (n, DashboardAction::ResetAll, false),
        InputEvent::ToggleTrafficUnits => (
            DashboardNav { traffic_unit: dashboard_unit_next(n.traffic_unit), ..n },
            DashboardAction::Continue,
            true,
        ),
        InputEvent::ZoomIn => (n, DashboardAction::ZoomIn, true),
        InputEvent::ZoomOut => (n, DashboardAction::ZoomOut, true),
        _ => (n, DashboardAction::Continue, false),
    }
}

impl DashboardNav {
    /// The first panel, nothing selected, first device, running.
    pub fn new(traffic_unit: TrafficUnit) -> (n: DashboardNav)
        ensures
            nav_ok(n),
            n.panel_index == 0 && n.active_panel == DashboardPanel::Overview,
            n.selected_item == 0 && n.current_device_index == 0,
            !n.paused && !n.show_help && !n.navigation_redraw_needed,
            n.traffic_unit == traffic_unit,
    {
        DashboardNav {
            panel_index: 0,
            active_panel: DashboardPanel::Overview,
            selected_item: 0,
            current_device_index: 0,
            paused: false,
            show_help: false,
            traffic_unit,
            navigation_redraw_needed: false,
        }
    }

    /// Moves to the next panel, from the last back to the first. Always
    /// moves, and says so.
    pub fn next_panel(&mut self) -> (moved: bool)
        requires
            nav_ok(*old(self)),
        ensures
            moved,
            *final(self) == at_panel(
                *old(self),
                if old(self).panel_index >= PANEL_COUNT - 1 {
                    0
                } else {
                    old(self).panel_index + 1
                },
            ),
            nav_ok(*final(self)),
    {
        let next = if self.panel_index >= PANEL_COUNT - 1 {
            0
        } else {
            self.panel_index + 1
        };
        self.panel_index = next;
        self.active_panel = panel_at_exec(next);
        self.selected_item = 0;
        self.navigation_redraw_needed = true;
        true
    }

    /// Moves to the previous panel, from the first to the last. Always
    /// moves, and says so.
    pub fn prev_panel(&mut self) -> (moved: bool)
        requires
            nav_ok(*old(self)),
        ensures
            moved,
            *final(self) == at_panel(
                *old(self),
                if old(self).panel_index == 0 {
                    PANEL_COUNT - 1
                } else {
                    old(self).panel_index - 1
                },
            ),
            nav_ok(*final(self)),
    {
        let prev = if self.panel_index == 0 {
            PANEL_COUNT - 1
        } else {
            self.panel_index - 1
        };
        self.panel_index = prev;
        self.active_panel = panel_at_exec(prev);
        self.selected_item = 0;
        self.navigation_redraw_needed = true;
        true
    }

    /// Selects the next of `max_items` rows, wrapping around.
    pub fn next_item(&mut self, max_items: usize)
        requires
            max_items > 0 ==> old(self).selected_item < usize::MAX,
        ensures
            *final(self) == if max_items > 0 {
                DashboardNav {
                    selected_item: ((old(self).selected_item + 1) % (max_items as int)) as usize,
                    ..*old(self)
                }
            } else {
                *old(self)
            },
    {
        if max_items > 0 {
            self.selected_item = (self.selected_item + 1) % max_items;
        }
    }

    /// Selects the previous of `max_items` rows, wrapping around.
    pub fn prev_item(&mut self, max_items: usize)
        ensures
            *final(self) == if max_items > 0 {
                DashboardNav {
                    selected_item: if old(self).selected_item == 0 {
                        (max_items - 1) as usize
                    } else {
                        (old(self).selected_item - 1) as usize
                    },
                    ..*old(self)
                }
            } else {
                *old(self)
            },
    {
        if max_items > 0 {
            self.selected_item = if self.selected_item == 0 {
                max_items - 1
            } else {
                self.selected_item - 1
            };
        }
    }

    /// Applies a command on a dashboard of `devices` devices (see
    /// `dashboard_step`). Returns the loop's action and whether to
    /// redraw.
    pub fn handle_event(&mut self, event: InputEvent, devices: usize) -> (r: (DashboardAction, bool))
        requires
            nav_ok(*old(self)),
            event is NextItem && old(self).active_panel is Interfaces && devices > 0
                ==> old(self).selected_item < usize::MAX,
            event is NextDevice || (event is NextItem && old(self).active_panel is Graphs && devices
                > 0) ==> old(self).current_device_index < usize::MAX,
            event is NextDevice || event is PrevDevice ==> devices > 0,
        ensures
            ({
                let (n, a, redraw) = dashboard_step(*old(self), event, devices);
                *final(self) == n && r == (a, redraw)
            }),
            nav_ok(*final(self)),
    {
        match event {
            InputEvent::Quit => (DashboardAction::Quit, false),
            InputEvent::NextPanel => {
                self.next_panel();
                (DashboardAction::Continue, true)
            },
            InputEvent::PrevPanel => {
                self.prev_panel();
                (DashboardAction::Continue, true)
            },
            InputEvent::NextItem => {
                if self.active_panel == DashboardPanel::Interfaces {
                    self.next_item(devices);
                    (DashboardAction::Continue, true)
                } else if self.active_panel == DashboardPanel::Graphs && devices > 0 {
                    self.current_device_index = (self.current_device_index + 1) % devices;
                    (DashboardAction::Continue, true)
                } else {
                    (DashboardAction::Continue, false)
                }
            },
            InputEvent::PrevItem => {
                if self.active_panel == DashboardPanel::Interfaces {
                    self.prev_item(devices);
                    (DashboardAction::Continue, true)
                } else if self.active_panel == DashboardPanel::Graphs && devices > 0 {
                    self.current_device_index = if self.current_device_index == 0 {
                        devices - 1
                    } else {
                        self.current_device_index - 1
                    };
                    (DashboardAction::Continue, true)
                } else {
                    (DashboardAction::Continue, false)
                }
            },
            InputEvent::NextDevice => {
                self.current_device_index = (self.current_device_index + 1) % devices;
                (DashboardAction::Continue, true)
            },
            InputEvent::PrevDevice => {
                self.current_device_index = if self.current_device_index == 0 {
                    devices - 1
                } else {
                    self.current_device_index - 1
                };
                (DashboardAction::Continue, true)
            },
            InputEvent::Pause => {
                self.paused = !self.paused;
                (DashboardAction::Continue, true)
            },
            InputEvent::ShowOptions => {
                self.show_help = !self.show_help;
                (DashboardAction::Continue, true)
            },
            InputEvent::SaveSettings => (DashboardAction::SaveSettings, false),
            InputEvent::ReloadSettings => (DashboardAction::ReloadSettings, false),
            InputEvent::Reset => (DashboardAction::ResetAll, false),
            InputEvent::ToggleTrafficUnits => {
                self.traffic_unit = match self.traffic_unit {
                    TrafficUnit::Bit => TrafficUnit::KiloBit,
                    TrafficUnit::KiloBit => TrafficUnit::MegaBit,
                    TrafficUnit::MegaBit => TrafficUnit::GigaBit,
                    TrafficUnit::GigaBit => TrafficUnit::Byte,
                    TrafficUnit::Byte => TrafficUnit::KiloByte,
                    TrafficUnit::KiloByte => TrafficUnit::MegaByte,
                    TrafficUnit::MegaByte => TrafficUnit::GigaByte,
                    TrafficUnit::GigaByte => TrafficUnit::HumanBit,
                    TrafficUnit::HumanBit => TrafficUnit::HumanByte,
                    TrafficUnit::HumanByte => TrafficUnit::Bit,
                };
                (DashboardAction::Continue, true)
            },
            InputEvent::ZoomIn => (DashboardAction::ZoomIn, true),
            InputEvent::ZoomOut => (DashboardAction::ZoomOut, true),
            _ => (DashboardAction::Continue, false),
        }
    }
}

/// How an interface is doing, as the overview shows it.
#[derive(Clone, Copy, Debug, PartialEq, Eq, Structural)]
pub enum InterfaceActivity {
    /// It has counted errors.
    Error,
    /// It moves traffic.
    Active,
    Idle,
}

/// An interface with errors in either direction is in error, else one
/// with a speed in either direction is active, else idle.
pub open spec fn activity_of(errors_in: u64, errors_out: u64, speed_in: u64, speed_out: u64) -> InterfaceActivity {
    if errors_in > 0 || errors_out > 0 {
        InterfaceActivity::Error
    } else if speed_in > 0 || speed_out > 0 {
        InterfaceActivity::Active
    } else {
        InterfaceActivity::Idle
    }
}

/// How an interface is doing (see `activity_of`).
pub fn interface_activity(errors_in: u64, errors_out: u64, speed_in: u64, speed_out: u64) -> (r:
    InterfaceActivity)
    ensures
        r == activity_of(errors_in, errors_out, speed_in, speed_out),
{
    if errors_in > 0 || errors_out > 0 {
        InterfaceActivity::Error
    } else if speed_in > 0 || speed_out > 0 {
        InterfaceActivity::Active
    } else {
        InterfaceActivity::Idle
    }
}

/// The findings of the overview's quick diagnostics, each with its
/// advice: errors, no activity at all, more than 100 connections; when
/// none applies, a healthy verdict and a tip.
pub open spec fn network_issues(has_traffic: bool, has_errors: bool, connections: usize) -> Seq<
    (Seq<char>, Seq<char>),
> {
    let errors: Seq<(Seq<char>, Seq<char>)> = if has_errors {
        seq![("🔴 Network errors detected"@, "→ Check cables, switch ports, driver issues"@)]
    } else {
        Seq::empty()
    };
    let idle = if !has_traffic && connections == 0 {
        errors.push(("⚠️ No network activity"@, "→ Check network config, firewall, services"@))
    } else {
        errors
    };
    let found = if connections > 100 {
        idle.push(("🟡 High connection count"@, "→ Check for connection leaks, DDoS, load"@))
    } else {
        idle
    };
    if found.len() == 0 {
        seq![
            ("✅ Network appears healthy"@, "→ Monitor bandwidth usage and error rates"@),
            ("💡 Pro tip"@, "→ Use other tabs for detailed interface/connection analysis"@),
        ]
    } else {
        found
    }
}

/// The quick diagnostics of the overview (see `network_issues`).
pub fn common_network_issues(has_traffic: bool, has_errors: bool, connections: usize) -> (r: Vec<
    (&'static str, &'static str),
>)
    ensures
        r@.len() == network_issues(has_traffic, has_errors, connections).len(),
        forall|i: int|
            0 <= i < r@.len() ==> (#[trigger] r@[i]).0@ == network_issues(
                has_traffic,
                has_errors,
                connections,
            )[i].0 && r@[i].1@ == network_issues(has_traffic, has_errors, connections)[i].1,
{
    let mut r: Vec<(&'static str, &'static str)> = Vec::new();
    if has_errors {
        r.push(("🔴 Network errors detected", "→ Check cables, switch ports, driver issues"));
    }
    if !has_traffic && connections == 0 {
        r.push(("⚠️ No network activity", "→ Check network config, firewall, services"));
    }
    if connections > 100 {
        r.push(("🟡 High connection count", "→ Check for connection leaks, DDoS, load"));
    }
    if r.len() == 0 {
        r.push(("✅ Network appears healthy", "→ Monitor bandwidth usage and error rates"));
        r.push(("💡 Pro tip", "→ Use other tabs for detailed interface/connection analysis"));
    }
    r
}

/// The verdict of the overview's server health box.
#[derive(Clone, Copy, Debug, PartialEq, Eq, Structural)]
pub enum ServerHealth {
    ErrorsDetected,
    HighBandwidth,
    HighConnectionCount,
    NetworkOk,
    /// Interfaces exist but carry (almost) nothing, which is common on
    /// servers.
    Quiet,
    NoInterfaces,
}

/// Interface errors first; then more than 50 MiB/s in all; then more
/// than 100 connections; then any activity (over 100 B/s or a
/// connection) is fine; else quiet when interfaces exist.
pub open spec fn server_health_of(
    has_errors: bool,
    total_traffic: u64,
    connections: usize,
    interfaces: usize,
) -> ServerHealth {
    if has_errors {
        ServerHealth::ErrorsDetected
    } else if total_traffic > 50 * 1024 * 1024 {
        ServerHealth::HighBandwidth
    } else if connections > 100 {
        ServerHealth::HighConnectionCount
    } else if total_traffic > 100 || connections > 0 {
        ServerHealth::NetworkOk
    } else if interfaces > 0 {
        ServerHealth::Quiet
    } else {
        ServerHealth::NoInterfaces
    }
}

/// The server health verdict (see `server_health_of`).
pub fn server_health(has_errors: bool, total_traffic: u64, connections: usize, interfaces: usize) -> (r:
    ServerHealth)
    ensures
        r == server_health_of(has_errors, total_traffic, connections, interfaces),
{
    if has_errors {
        ServerHealth::ErrorsDetected
    } else if total_traffic > 50 * 1024 * 1024 {
        ServerHealth::HighBandwidth
    } else if connections > 100 {
        ServerHealth::HighConnectionCount
    } else if total_traffic > 100 || connections > 0 {
        ServerHealth::NetworkOk
    } else if interfaces > 0 {
        ServerHealth::Quiet
    } else {
        ServerHealth::NoInterfaces
    }
}

/// The grade of the network health box.
#[derive(Clone, Copy, Debug, PartialEq, Eq, Structural)]
pub enum HealthGrade {
    Excellent,
    Good,
    Issues,
}

/// No errors, drops or troubled connections is excellent; fewer than ten
/// errors, ten drops and five troubled connections is good; else there
/// are issues.
pub open spec fn health_grade_of(errors: u64, drops: u64, troubled: usize) -> HealthGrade {
    if errors == 0 && drops == 0 && troubled == 0 {
        HealthGrade::Excellent
    } else if errors < 10 && drops < 10 && troubled < 5 {
        HealthGrade::Good
    } else {
        HealthGrade::Issues
    }
}

/// The network health grade of the interfaces' error and drop totals and
/// the number of connections with retransmissions or losses (see
/// `health_grade_of`).
pub fn network_health(errors: u64, drops: u64, troubled: usize) -> (r: HealthGrade)
    ensures
        r == health_grade_of(errors, drops, troubled),
{
    if errors == 0 && drops == 0 && troubled == 0 {
        HealthGrade::Excellent
    } else if errors < 10 && drops < 10 && troubled < 5 {
        HealthGrade::Good
    } else {
        HealthGrade::Issues
    }
}

/// Whether a current speed is a spike: more than five times a non-zero
/// average.
pub fn traffic_spike(current: u64, average: u64) -> (r: bool)
    requires
        average * 5 <= u64::MAX,
    ensures
        r == (average > 0 && current > average * 5),
{
    average > 0 && current > average * 5
}

/// Moving to the next panel and back returns to the same panel, and
/// going forward `PANEL_COUNT` times returns to the start.
pub proof fn law_panel_round_trip(n: DashboardNav)
    requires
        nav_ok(n),
    ensures
        ({
            let f = dashboard_step(n, InputEvent::NextPanel, 0).0;
            let b = dashboard_step(f, InputEvent::PrevPanel, 0).0;
            &&& nav_ok(f)
            &&& b.panel_index == n.panel_index
            &&& b.active_panel == n.active_panel
        }),
        ({
            let b = dashboard_step(n, InputEvent::PrevPanel, 0).0;
            let f = dashboard_step(b, InputEvent::NextPanel, 0).0;
            f.panel_index == n.panel_index && f.active_panel == n.active_panel
        }),
{
}

/// Every panel is reached by moving forward from the first one, in tab
/// order.
pub proof fn law_panels_in_order(i: int)
    requires
        0 <= i < PANEL_COUNT - 1,
    ensures
        ({
            let n = at_panel(DashboardNav {
                panel_index: 0,
                active_panel: DashboardPanel::Overview,
                selected_item: 0,
                current_device_index: 0,
                paused: false,
                show_help: false,
                traffic_unit: TrafficUnit::HumanBit,
                navigation_redraw_needed: false,
            }, i);
            dashboard_step(n, InputEvent::NextPanel, 0).0.active_panel == panel_at(i + 1)
        }),
{
}


// ---------------------------------------------------------------------
// Connection quality
// ---------------------------------------------------------------------

/// Whether an address names another host: neither a loopback address
/// (`127.0.0.0/8`, `::1`) nor the unspecified one (`0.0.0.0`, `::`).
pub open spec fn is_remote_host(ip: IpAddr) -> bool {
    match ip {
        IpAddr::V4(a) => a != 0 && a / 0x100_0000 != 127,
        IpAddr::V6(a) => a != 0 && a != 1,
    }
}

/// Over `s`: the established connections, those of them whose remote end
/// is another host, and those remote hosts, each once, in order of first
/// appearance.
pub open spec fn quality_counts(s: Seq<NetworkConnection>) -> (nat, nat, Seq<IpAddr>)
    decreases s.len(),
{
    if s.len() == 0 {
        (0, 0, Seq::empty())
    } else {
        let r = quality_counts(s.drop_last());
        let c = s.last();
        if c.state is Established {
            if is_remote_host(c.remote_addr.ip) {
                let hosts = if r.2.contains(c.remote_addr.ip) {
                    r.2
                } else {
                    r.2.push(c.remote_addr.ip)
                };
                (r.0 + 1, r.1 + 1, hosts)
            } else {
                (r.0 + 1, r.1, r.2)
            }
        } else {
            r
        }
    }
}

/// The traffic guessed from the number of established connections: none
/// up to 5, then about 10 KiB, 50 KiB (from 21) or 100 KiB (from 51) for
/// each of them.
pub open spec fn bandwidth_estimate(established: nat) -> nat {
    if established <= 5 {
        0
    } else if established <= 20 {
        established * 10240
    } else if established <= 50 {
        established * 51200
    } else {
        established * 102400
    }
}

/// Figures of the connection-quality panel.
#[derive(Clone, Copy, Debug, PartialEq, Eq, Structural)]
pub struct ConnectionQuality {
    /// Established connections.
    pub established: u32,
    /// Established connections to another host.
    pub remote: u32,
    /// Distinct other hosts of the established connections.
    pub unique_hosts: u32,
    /// Connections rated excellent.
    pub high: u32,
    /// Connections rated good.
    pub medium: u32,
    /// Connections neither established nor listening (rated poor).
    pub poor: u32,
    /// Estimated traffic, bytes per second.
    pub bandwidth: u64,
    /// Connections taken as congested: a tenth of the established ones
    /// once there are more than 100.
    pub congested: u32,
}

/// The quality figures of the connections `s` whose counts are `st`: the
/// established ones less half the distinct remote hosts (never below
/// zero) are excellent, half the remote hosts good, and the connections
/// that neither are established nor listen poor.
pub open spec fn connection_quality_of(s: Seq<NetworkConnection>, st: ConnectionStats) -> ConnectionQuality {
    let q = quality_counts(s);
    let half = q.2.len() / 2;
    ConnectionQuality {
        established: q.0 as u32,
        remote: q.1 as u32,
        unique_hosts: q.2.len() as u32,
        high: (if q.0 >= half {
            q.0 - half
        } else {
            0
        }) as u32,
        medium: half as u32,
        poor: (s.len() - st.established - st.listening) as u32,
        bandwidth: bandwidth_estimate(q.0) as u64,
        congested: (if q.0 > 100 {
            q.0 / 10
        } else {
            0
        }) as u32,
    }
}

proof fn lemma_quality_counts_bounded(s: Seq<NetworkConnection>)
    ensures
        quality_counts(s).1 <= quality_counts(s).0 <= s.len(),
        quality_counts(s).2.len() <= quality_counts(s).1,
    decreases s.len(),
{
    if s.len() > 0 {
        lemma_quality_counts_bounded(s.drop_last());
    }
}

fn is_remote_host_exec(ip: &IpAddr) -> (r: bool)
    ensures
        r == is_remote_host(*ip),
{
    match ip {
        IpAddr::V4(a) => *a != 0 && *a / 0x100_0000 != 127,
        IpAddr::V6(a) => *a != 0 && *a != 1,
    }
}

/// The figures of the connection-quality panel for the connections
/// `conns`, whose counts are `stats`.
pub fn connection_quality(conns: &[NetworkConnection], stats: &ConnectionStats) -> (r: ConnectionQuality)
    requires
        conns@.len() <= u32::MAX,
        stats.established + stats.listening <= conns@.len(),
    ensures
        r == connection_quality_of(conns@, *stats),
{
    let mut established: u32 = 0;
    let mut remote: u32 = 0;
    let mut hosts: Vec<IpAddr> = Vec::new();
    let mut i: usize = 0;
    assert(conns@.take(0) =~= Seq::<NetworkConnection>::empty());
    while i < conns.len()
        invariant
            i <= conns@.len(),
            conns@.len() <= u32::MAX,
            established == quality_counts(conns@.take(i as int)).0,
            remote == quality_counts(conns@.take(i as int)).1,
            hosts@ == quality_counts(conns@.take(i as int)).2,
        decreases conns@.len() - i,
    {
        let ghost prev = quality_counts(conns@.take(i as int));
        proof {
            assert(conns@.take(i + 1).drop_last() =~= conns@.take(i as int));
            assert(conns@.take(i + 1).last() == conns@[i as int]);
            lemma_quality_counts_bounded(conns@.take(i as int));
        }
        let c = &conns[i];
        if c.state == ConnectionState::Established {
            established = established + 1;
            let ip = c.remote_addr.ip;
            if is_remote_host_exec(&ip) {
                remote = remote + 1;
                let mut k: usize = 0;
                while k < hosts.len() && hosts[k] != ip
                    invariant
                        k <= hosts@.len(),
                        hosts@ == prev.2,
                        forall|m: int| 0 <= m < k ==> prev.2[m] != ip,
                    decreases hosts@.len() - k,
                {
                    k = k + 1;
                }
                if k == hosts.len() {
                    assert(!prev.2.contains(ip));
                    hosts.push(ip);
                } else {
                    assert(prev.2[k as int] == ip);
                    assert(prev.2.contains(ip));
                }
            }
        }
        i = i + 1;
    }
    assert(conns@.take(i as int) =~= conns@);
    proof {
        lemma_quality_counts_bounded(conns@);
    }
    let unique: u32 = hosts.len() as u32;
    let half: u32 = unique / 2;
    let bandwidth: u64 = if established <= 5 {
        0
    } else if established <= 20 {
        established as u64 * 10240
    } else if established <= 50 {
        established as u64 * 51200
    } else {
        established as u64 * 102400
    };
    ConnectionQuality {
        established,
        remote,
        unique_hosts: unique,
        high: if established >= half {
            established - half
        } else {
            0
        },
        medium: half,
        poor: conns.len() as u32 - stats.established - stats.listening,
        bandwidth,
        congested: if established > 100 {
            established / 10
        } else {
            0
        },
    }
}


// ---------------------------------------------------------------------
// Geographic threat summary
// ---------------------------------------------------------------------

/// How alarming the analysed connections are.
#[derive(Clone, Copy, Debug, PartialEq, Eq, Structural)]
pub enum GeoThreatLevel {
    High,
    Medium,
    Low,
    Clean,
}

/// The level for `n` suspicious connections: high above 5, medium above
/// 2, low above 0, else clean.
pub open spec fn threat_level(n: u32) -> GeoThreatLevel {
    if n > 5 {
        GeoThreatLevel::High
    } else if n > 2 {
        GeoThreatLevel::Medium
    } else if n > 0 {
        GeoThreatLevel::Low
    } else {
        GeoThreatLevel::Clean
    }
}

/// The connections that the panel analyses: the first three.
pub open spec fn analysed(s: Seq<ConnectionIntelligence>) -> Seq<ConnectionIntelligence> {
    if s.len() > 3 {
        s.take(3)
    } else {
        s
    }
}

/// An external connection (known location, not internal) that is a
/// known threat or raised an indicator.
pub open spec fn is_geo_threat(c: ConnectionIntelligence) -> bool {
    c.geo_info matches Some(g) && !g.is_internal && (g.is_suspicious || c.threat_indicators@.len() > 0)
}

/// How many connections of `s` are geographic threats.
pub open spec fn suspicious_in(s: Seq<ConnectionIntelligence>) -> nat
    decreases s.len(),
{
    if s.len() == 0 {
        0
    } else {
        suspicious_in(s.drop_last()) + if is_geo_threat(s.last()) {
            1nat
        } else {
            0nat
        }
    }
}

/// The positions of the geographic threats of `s`, in order.
pub open spec fn threat_positions(s: Seq<ConnectionIntelligence>) -> Seq<usize>
    decreases s.len(),
{
    if s.len() == 0 {
        Seq::empty()
    } else if is_geo_threat(s.last()) {
        threat_positions(s.drop_last()).push((s.len() - 1) as usize)
    } else {
        threat_positions(s.drop_last())
    }
}

/// How many external connections of `s` are located in `country`.
pub open spec fn country_count(s: Seq<ConnectionIntelligence>, country: Seq<char>) -> nat
    decreases s.len(),
{
    if s.len() == 0 {
        0
    } else {
        country_count(s.drop_last(), country) + if s.last().geo_info matches Some(g) && !g.is_internal
            && g.country@ == country {
            1nat
        } else {
            0nat
        }
    }
}

/// The countries of the external connections of `s`, in order of first
/// appearance, each with its number of connections.
pub open spec fn country_tally(s: Seq<ConnectionIntelligence>) -> Seq<(Seq<char>, nat)> {
    history_counts(s).2.map_values(|name: Seq<char>| (name, country_count(s, name)))
}

/// A list of (country, count) pairs as text and numbers.
pub open spec fn tally_view(v: Seq<(String, u32)>) -> Seq<(Seq<char>, nat)> {
    v.map_values(|p: (String, u32)| (p.0@, p.1 as nat))
}

/// What the geographic threat panel shows.
#[derive(Debug, Clone)]
pub struct GeoThreatSummary {
    /// Countries of the external analysed connections with their counts.
    pub countries: Vec<(String, u32)>,
    /// Analysed connections that are geographic threats.
    pub suspicious: u32,
    pub level: GeoThreatLevel,
    /// Positions of those connections among the analysed ones.
    pub threats: Vec<usize>,
}

proof fn lemma_suspicious_bounded(s: Seq<ConnectionIntelligence>)
    ensures
        suspicious_in(s) <= s.len(),
    decreases s.len(),
{
    if s.len() > 0 {
        lemma_suspicious_bounded(s.drop_last());
    }
}

fn level_for(n: u32) -> (r: GeoThreatLevel)
    ensures
        r == threat_level(n),
{
    if n > 5 {
        GeoThreatLevel::High
    } else if n > 2 {
        GeoThreatLevel::Medium
    } else if n > 0 {
        GeoThreatLevel::Low
    } else {
        GeoThreatLevel::Clean
    }
}

/// The geographic threat summary of the first three analysed connections
/// of `intel`.
pub fn geo_threat_summary(intel: &[ConnectionIntelligence]) -> (r: GeoThreatSummary)
    ensures
        tally_view(r.countries@) == country_tally(analysed(intel@)),
        r.suspicious == suspicious_in(analysed(intel@)),
        r.level == threat_level(r.suspicious),
        r.threats@ == threat_positions(analysed(intel@)),
{
    let n: usize = if intel.len() > 3 {
        3
    } else {
        intel.len()
    };
    let ghost a = analysed(intel@);
    assert(a =~= intel@.take(n as int));
    let mut suspicious: u32 = 0;
    let mut threats: Vec<usize> = Vec::new();
    let mut names: Vec<String> = Vec::new();
    let mut i: usize = 0;
    assert(a.take(0) =~= Seq::<ConnectionIntelligence>::empty());
    while i < n
        invariant
            n <= 3,
            n == a.len(),
            n <= intel@.len(),
            i <= n,
            a =~= intel@.take(n as int),
            suspicious == suspicious_in(a.take(i as int)),
            threats@ == threat_positions(a.take(i as int)),
            names@.len() == history_counts(a.take(i as int)).2.len(),
            forall|k: int| 0 <= k < names@.len() ==> #[trigger] names@[k]@ == history_counts(a.take(i as int)).2[k],
        decreases n - i,
    {
        let ghost prev = history_counts(a.take(i as int));
        proof {
            assert(a.take(i + 1).drop_last() =~= a.take(i as int));
            assert(a.take(i + 1).last() == a[i as int]);
            assert(a.take(i + 1).len() == i + 1);
            lemma_suspicious_bounded(a.take(i as int));
            assert(a[i as int] == intel@[i as int]);
        }
        let c = &intel[i];
        match &c.geo_info {
            Some(g) => {
                if !g.is_internal {
                    if g.is_suspicious || c.threat_indicators.len() > 0 {
                        suspicious = suspicious + 1;
                        threats.push(i);
                    }
                    let mut k: usize = 0;
                    while k < names.len() && !(names[k] == g.country)
                        invariant
                            k <= names@.len(),
                            names@.len() == prev.2.len(),
                            forall|m: int| 0 <= m < names@.len() ==> #[trigger] names@[m]@ == prev.2[m],
                            forall|m: int| 0 <= m < k ==> prev.2[m] != g.country@,
                        decreases names@.len() - k,
                    {
                        k = k + 1;
                    }
                    if k == names.len() {
                        assert(!prev.2.contains(g.country@));
                        names.push(g.country.clone());
                    } else {
                        assert(prev.2[k as int] == g.country@);
                        assert(prev.2.contains(g.country@));
                    }
                }
            },
            None => {},
        }
        i = i + 1;
    }
    assert(a.take(n as int) =~= a);
    let ghost hc = history_counts(a).2;
    let mut countries: Vec<(String, u32)> = Vec::new();
    let mut j: usize = 0;
    while j < names.len()
        invariant
            n <= 3,
            n == a.len(),
            n <= intel@.len(),
            a =~= intel@.take(n as int),
            j <= names@.len(),
            names@.len() == hc.len(),
            forall|k: int| 0 <= k < names@.len() ==> #[trigger] names@[k]@ == hc[k],
            countries@.len() == j,
            forall|k: int| 0 <= k < j ==> #[trigger] tally_view(countries@)[k] == (hc[k], country_count(a, hc[k])),
        decreases names@.len() - j,
    {
        let mut count: u32 = 0;
        let mut t: usize = 0;
        while t < n
            invariant
                n <= 3,
                n == a.len(),
                n <= intel@.len(),
                a =~= intel@.take(n as int),
                t <= n,
                j < names@.len(),
                count <= t,
                count == country_count(a.take(t as int), names@[j as int]@),
            decreases n - t,
        {
            proof {
                assert(a.take(t + 1).drop_last() =~= a.take(t as int));
                assert(a.take(t + 1).last() == a[t as int]);
                assert(a[t as int] == intel@[t as int]);
            }
            match &intel[t].geo_info {
                Some(g) => {
                    if !g.is_internal && g.country == names[j] {
                        count = count + 1;
                    }
                },
                None => {},
            }
            t = t + 1;
        }
        assert(a.take(n as int) =~= a);
        let ghost before = countries@;
        countries.push((names[j].clone(), count));
        proof {
            assert forall|k: int| 0 <= k < j + 1 implies #[trigger] tally_view(countries@)[k] == (
            hc[k], country_count(a, hc[k])) by {
                assert(tally_view(countries@)[k] == (countries@[k].0@, countries@[k].1 as nat));
                if k < j {
                    assert(countries@[k] == before[k]);
                    assert(tally_view(before)[k] == (before[k].0@, before[k].1 as nat));
                } else {
                    assert(names@[j as int]@ == hc[k]);
                }
            }
        }
        j = j + 1;
    }
    assert(tally_view(countries@) =~= country_tally(a));
    let level = level_for(suspicious);
    GeoThreatSummary { countries, suspicious, level, threats }
}


/// The threat level rises with the number of suspicious connections:
/// clean for none, low for one or two, medium for three to five, high
/// for six or more.
pub proof fn law_threat_level_steps(n: u32, m: u32)
    ensures
        threat_level(n) == GeoThreatLevel::Clean <==> n == 0,
        threat_level(n) == GeoThreatLevel::Low <==> 1 <= n <= 2,
        threat_level(n) == GeoThreatLevel::Medium <==> 3 <= n <= 5,
        threat_level(n) == GeoThreatLevel::High <==> n >= 6,
        n <= m && threat_level(n) == GeoThreatLevel::High ==> threat_level(m) == GeoThreatLevel::High,
{
}

/// The traffic guessed for `e` established connections grows with their
/// number and is `e` times a per-connection figure: 0 up to 5
/// connections, 10 KiB from 6 to 20, 50 KiB from 21 to 50, 100 KiB from
/// 51 on.
pub proof fn law_bandwidth_estimate(e: nat, f: nat)
    ensures
        e <= 5 ==> bandwidth_estimate(e) == 0,
        6 <= e <= 20 ==> bandwidth_estimate(e) == e * 10 * 1024,
        21 <= e <= 50 ==> bandwidth_estimate(e) == e * 50 * 1024,
        e >= 51 ==> bandwidth_estimate(e) == e * 100 * 1024,
        e <= f ==> bandwidth_estimate(e) <= bandwidth_estimate(f),
{
    if e <= f {
        assert(bandwidth_estimate(e) <= bandwidth_estimate(f)) by (nonlinear_arith)
            requires
                e <= f,
                bandwidth_estimate(e) == (if e <= 5 {
                    0
                } else if e <= 20 {
                    e * 10240
                } else if e <= 50 {
                    e * 51200
                } else {
                    e * 102400
                }),
                bandwidth_estimate(f) == (if f <= 5 {
                    0
                } else if f <= 20 {
                    f * 10240
                } else if f <= 50 {
                    f * 51200
                } else {
                    f * 102400
                }),
        ;
    }
}

} // verus!
