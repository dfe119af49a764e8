//! The decisions of the classic (nload-style) display: how each command
//! changes the view and the settings, and what the caller has to do
//! (quit, zoom, reset a device's statistics, save or reload settings).
use vstd::prelude::*;

use crate::cli::{unit_code, unit_next, unit_of_code, TrafficUnit};
use crate::config::{Config, ConfigView};
use crate::input::InputEvent;
use crate::text::string_of;

verus! {

/// Shortest refresh interval the options window allows, in ms.
pub const MIN_UI_REFRESH: u64 = 50;

/// Longest refresh interval the options window allows, in ms.
pub const MAX_UI_REFRESH: u64 = 2000;

/// Shortest average window the options window allows, in seconds.
pub const MIN_UI_AVERAGE: u32 = 30;

/// Longest average window the options window allows, in seconds.
pub const MAX_UI_AVERAGE: u32 = 1800;

/// The view state of the classic display, except the zoom factor.
#[derive(Debug, Clone)]
pub struct DisplayControls {
    pub current_device_index: usize,
    pub device_count: usize,
    pub show_multiple: bool,
    pub show_graphs: bool,
    pub paused: bool,
    pub traffic_unit: TrafficUnit,
    pub data_unit: TrafficUnit,
    pub max_incoming: u64,
    pub max_outgoing: u64,
    pub show_options: bool,
    pub settings_message: Option<String>,
}

/// What the caller does after a command.
#[derive(Clone, Copy, Debug, PartialEq, Eq, Structural)]
pub enum ControlAction {
    Continue,
    Quit,
    /// Multiply the zoom by 1.5, at most 10.
    ZoomIn,
    /// Divide the zoom by 1.5, at least 0.1.
    ZoomOut,
    /// Reset the statistics of the device at this index.
    ResetDevice(usize),
    /// Save the settings; report the outcome in the options window when
    /// `in_options`.
    SaveSettings { in_options: bool },
    /// Reload the settings; report the outcome in the options window when
    /// `in_options`.
    ReloadSettings { in_options: bool },
}

/// The plain-value part of the display state.
pub struct ControlsView {
    pub current_device_index: usize,
    pub device_count: usize,
    pub show_multiple: bool,
    pub show_graphs: bool,
    pub paused: bool,
    pub traffic_unit: TrafficUnit,
    pub data_unit: TrafficUnit,
    pub max_incoming: u64,
    pub max_outgoing: u64,
    pub show_options: bool,
    pub message: Option<Seq<char>>,
}

impl View for DisplayControls {
    type V = ControlsView;

    open spec fn view(&self) -> ControlsView {
        ControlsView {
            current_device_index: self.current_device_index,
            device_count: self.device_count,
            show_multiple: self.show_multiple,
            show_graphs: self.show_graphs,
            paused: self.paused,
            traffic_unit: self.traffic_unit,
            data_unit: self.data_unit,
            max_incoming: self.max_incoming,
            max_outgoing: self.max_outgoing,
            show_options: self.show_options,
            message: match self.settings_message {
                Some(m) => Some(m@),
                None => None,
            },
        }
    }
}

/// The device index points at a device, or is 0 when there is none.
pub open spec fn controls_ok(v: ControlsView) -> bool {
    v.device_count == 0 && v.current_device_index == 0 || v.current_device_index < v.device_count
}

/// The settings after saving from the display: units, view mode and
/// scales taken from it.
pub open spec fn saved_config(c: ConfigView, v: ControlsView) -> ConfigView {
    ConfigView {
        traffic_format: unit_code(v.traffic_unit),
        data_format: unit_code(v.data_unit),
        multiple_devices: v.show_multiple,
        max_incoming: v.max_incoming,
        max_outgoing: v.max_outgoing,
        ..c
    }
}

/// The effect of a command: new view, new settings and the caller's
/// action. While the options window is open only settings commands act;
/// otherwise commands change the view.
pub open spec fn control_step(v: ControlsView, c: ConfigView, e: InputEvent) -> (
    ControlsView,
    ConfigView,
    ControlAction,
) {
    if e is NextPanel || e is PrevPanel || e is NextItem || e is PrevItem {
        (v, c, ControlAction::Continue)
    } else if v.show_options {
        match e {
            InputEvent::ShowOptions | InputEvent::Quit => (
                ControlsView { show_options: false, message: None, ..v },
                c,
                ControlAction::Continue,
            ),
            InputEvent::ToggleTrafficUnits => (
                ControlsView { traffic_unit: unit_next(v.traffic_unit), ..v },
                c,
                ControlAction::Continue,
            ),
            InputEvent::ToggleDataUnits => (
                ControlsView { data_unit: unit_next(v.data_unit), ..v },
                c,
                ControlAction::Continue,
            ),
            InputEvent::Pause => (ControlsView { paused: !v.paused, ..v }, c, ControlAction::Continue),
            InputEvent::ZoomIn => (v, c, ControlAction::ZoomIn),
            InputEvent::ZoomOut => (v, c, ControlAction::ZoomOut),
            InputEvent::SaveSettings => (
                v,
                saved_config(c, v),
                ControlAction::SaveSettings { in_options: true },
            ),
            InputEvent::IncreaseRefresh => (
                v,
                ConfigView {
                    refresh_interval: if c.refresh_interval >= 2 * MIN_UI_REFRESH {
                        (c.refresh_interval - MIN_UI_REFRESH) as u64
                    } else {
                        MIN_UI_REFRESH
                    },
                    ..c
                },
                ControlAction::Continue,
            ),
            InputEvent::DecreaseRefresh => (
                v,
                ConfigView {
                    refresh_interval: if c.refresh_interval + 50 <= MAX_UI_REFRESH {
                        (c.refresh_interval + 50) as u64
                    } else {
                        MAX_UI_REFRESH
                    },
                    ..c
                },
                ControlAction::Continue,
            ),
            InputEvent::IncreaseAverage => (
                v,
                ConfigView {
                    average_window: if c.average_window + 30 <= MAX_UI_AVERAGE {
                        (c.average_window + 30) as u32
                    } else {
                        MAX_UI_AVERAGE
                    },
                    ..c
                },
                ControlAction::Continue,
            ),
            InputEvent::DecreaseAverage => (
                v,
                ConfigView {
                    average_window: if c.average_window >= 2 * MIN_UI_AVERAGE {
                        (c.average_window - 30) as u32
                    } else {
                        MIN_UI_AVERAGE
                    },
                    ..c
                },
                ControlAction::Continue,
            ),
            InputEvent::ReloadSettings => (v, c, ControlAction::ReloadSettings { in_options: true }),
            _ => (v, c, ControlAction::Continue),
        }
    } else {
        match e {
            InputEvent::Quit => (v, c, ControlAction::Quit),
            InputEvent::NextDevice => (
                if v.device_count > 0 {
                    ControlsView {
                        current_device_index: ((v.current_device_index + 1) % (
                        v.device_count as int)) as usize,
                        ..v
                    }
                } else {
                    v
                },
                c,
                ControlAction::Continue,
            ),
            InputEvent::PrevDevice => (
                if v.device_count > 0 {
                    ControlsView {
                        current_device_index: if v.current_device_index == 0 {
                            (v.device_count - 1) as usize
                        } else {
                            (v.current_device_index - 1) as usize
                        },
                        ..v
                    }
                } else {
                    v
                },
                c,
                ControlAction::Continue,
            ),
            InputEvent::Reset => (
                v,
                c,
                if v.current_device_index < v.device_count {
                    ControlAction::ResetDevice(v.current_device_index)
                } else {
                    ControlAction::Continue
                },
            ),
            InputEvent::Pause => (ControlsView { paused: !v.paused, ..v }, c, ControlAction::Continue),
            InputEvent::ToggleTrafficUnits => (
                ControlsView { traffic_unit: unit_next(v.traffic_unit), ..v },
                c,
                ControlAction::Continue,
            ),
            InputEvent::ToggleDataUnits => (
                ControlsView { data_unit: unit_next(v.data_unit), ..v },
                c,
                ControlAction::Continue,
            ),
            InputEvent::ToggleGraphs => (
                ControlsView { show_graphs: !v.show_graphs, ..v },
                c,
                ControlAction::Continue,
            ),
            InputEvent::ToggleMultiple => (
                ControlsView { show_multiple: !v.show_multiple, ..v },
                c,
                ControlAction::Continue,
            ),
            InputEvent::ZoomIn => (v, c, ControlAction::ZoomIn),
            InputEvent::ZoomOut => (v, c, ControlAction::ZoomOut),
            InputEvent::ShowOptions => (
                ControlsView { show_options: !v.show_options, ..v },
                c,
                ControlAction::Continue,
            ),
            InputEvent::SaveSettings => (
                v,
                saved_config(c, v),
                ControlAction::SaveSettings { in_options: false },
            ),
            InputEvent::ReloadSettings => (v, c, ControlAction::ReloadSettings { in_options: false }),
            _ => (v, c, ControlAction::Continue),
        }
    }
}

impl DisplayControls {
    /// The view for `device_count` devices under the settings `config`:
    /// first device, graphs shown, not paused, options closed, units,
    /// view mode and scales from the settings.
    pub fn new(device_count: usize, config: &Config) -> (s: DisplayControls)
        ensures
            s@ == (ControlsView {
                current_device_index: 0,
                device_count,
                show_multiple: config.multiple_devices,
                show_graphs: true,
                paused: false,
                traffic_unit: match unit_of_code(config.traffic_format@) {
                    Some(u) => u,
                    None => TrafficUnit::KiloBit,
                },
                data_unit: match unit_of_code(config.data_format@) {
                    Some(u) => u,
                    None => TrafficUnit::MegaByte,
                },
                max_incoming: config.max_incoming,
                max_outgoing: config.max_outgoing,
                show_options: false,
                message: None,
            }),
            controls_ok(s@),
    {
        DisplayControls {
            current_device_index: 0,
            device_count,
            show_multiple: config.multiple_devices,
            show_graphs: true,
            paused: false,
            traffic_unit: config.get_traffic_unit(),
            data_unit: config.get_data_unit(),
            max_incoming: config.max_incoming,
            max_outgoing: config.max_outgoing,
            show_options: false,
            settings_message: None,
        }
    }

    /// Applies a command (see `control_step`).
    pub fn handle_input(&mut self, event: InputEvent, config: &mut Config) -> (a: ControlAction)
        requires
            controls_ok(old(self)@),
            old(self).show_options && event is DecreaseRefresh ==> old(config).refresh_interval
                + 50 <= u64::MAX,
            old(self).show_options && event is IncreaseAverage ==> old(config).average_window + 30
                <= u32::MAX,
        ensures
            ({
                let (v, c, act) = control_step(old(self)@, old(config)@, event);
                &&& final(self)@ == v
                &&& final(config)@ == c
                &&& a == act
            }),
            controls_ok(final(self)@),
    {
        match event {
            InputEvent::NextPanel | InputEvent::PrevPanel | InputEvent::NextItem
            | InputEvent::PrevItem => {
                return ControlAction::Continue;
            },
            _ => {},
        }
        if self.show_options {
            match event {
                InputEvent::ShowOptions | InputEvent::Quit => {
                    self.show_options = false;
                    self.settings_message = None;
                    ControlAction::Continue
                },
                InputEvent::ToggleTrafficUnits => {
                    self.traffic_unit = self.traffic_unit.next();
                    ControlAction::Continue
                },
                InputEvent::ToggleDataUnits => {
                    self.data_unit = self.data_unit.next();
                    ControlAction::Continue
                },
                InputEvent::Pause => {
                    self.paused = !self.paused;
                    ControlAction::Continue
                },
                InputEvent::ZoomIn => ControlAction::ZoomIn,
                InputEvent::ZoomOut => ControlAction::ZoomOut,
                InputEvent::SaveSettings => {
                    self.store_settings(config);
                    ControlAction::SaveSettings { in_options: true }
                },
                InputEvent::IncreaseRefresh => {
                    let r = config.refresh_interval.saturating_sub(MIN_UI_REFRESH);
                    config.refresh_interval = if r > MIN_UI_REFRESH {
                        r
                    } else {
                        MIN_UI_REFRESH
                    };
                    ControlAction::Continue
                },
                InputEvent::DecreaseRefresh => {
                    let r = config.refresh_interval + 50;
                    config.refresh_interval = if r < MAX_UI_REFRESH {
                        r
                    } else {
                        MAX_UI_REFRESH
                    };
                    ControlAction::Continue
                },
                InputEvent::IncreaseAverage => {
                    let w = config.average_window + 30;
                    config.average_window = if w < MAX_UI_AVERAGE {
                        w
                    } else {
                        MAX_UI_AVERAGE
                    };
                    ControlAction::Continue
                },
                InputEvent::DecreaseAverage => {
                    let w = config.average_window.saturating_sub(30);
                    config.average_window = if w > MIN_UI_AVERAGE {
                        w
                    } else {
                        MIN_UI_AVERAGE
                    };
                    ControlAction::Continue
                },
                InputEvent::ReloadSettings => ControlAction::ReloadSettings { in_options: true },
                _ => ControlAction::Continue,
            }
        } else {
            match event {
                InputEvent::Quit => ControlAction::Quit,
                InputEvent::NextDevice => {
                    if self.device_count > 0 {
                        self.current_device_index = (self.current_device_index + 1)
                            % self.device_count;
                    }
                    ControlAction::Continue
                },
                InputEvent::PrevDevice => {
                    if self.device_count > 0 {
                        self.current_device_index = if self.current_device_index == 0 {
                            self.device_count - 1
                        } else {
                            self.current_device_index - 1
                        };
                    }
                    ControlAction::Continue
                },
                InputEvent::Reset => {
                    if self.current_device_index < self.device_count {
                        ControlAction::ResetDevice(self.current_device_index)
                    } else {
                        ControlAction::Continue
                    }
                },
                InputEvent::Pause => {
                    self.paused = !self.paused;
                    ControlAction::Continue
                },
                InputEvent::ToggleTrafficUnits => {
                    self.traffic_unit = self.traffic_unit.next();
                    ControlAction::Continue
                },
                InputEvent::ToggleDataUnits => {
                    self.data_unit = self.data_unit.next();
                    ControlAction::Continue
                },
                InputEvent::ToggleGraphs => {
                    self.show_graphs = !self.show_graphs;
                    ControlAction::Continue
                },
                InputEvent::ToggleMultiple => {
                    self.show_multiple = !self.show_multiple;
                    ControlAction::Continue
                },
                InputEvent::ZoomIn => ControlAction::ZoomIn,
                InputEvent::ZoomOut => ControlAction::ZoomOut,
                InputEvent::ShowOptions => {
                    self.show_options = !self.show_options;
                    ControlAction::Continue
                },
                InputEvent::SaveSettings => {
                    self.store_settings(config);
                    ControlAction::SaveSettings { in_options: false }
                },
                InputEvent::ReloadSettings => ControlAction::ReloadSettings { in_options: false },
                _ => ControlAction::Continue,
            }
        }
    }

    fn store_settings(&self, config: &mut Config)
        ensures
            final(config)@ == saved_config(old(config)@, self@),
    {
        config.traffic_format = string_of(self.traffic_unit.to_string());
        config.data_format = string_of(self.data_unit.to_string());
        config.multiple_devices = self.show_multiple;
        config.max_incoming = self.max_incoming;
        config.max_outgoing = self.max_outgoing;
    }

    /// Takes over reloaded settings: units, view mode and scales.
    pub fn apply_config(&mut self, config: &Config)
        ensures
            final(self)@ == (ControlsView {
                traffic_unit: match unit_of_code(config.traffic_format@) {
                    Some(u) => u,
                    None => TrafficUnit::KiloBit,
                },
                data_unit: match unit_of_code(config.data_format@) {
                    Some(u) => u,
                    None => TrafficUnit::MegaByte,
                },
                show_multiple: config.multiple_devices,
                max_incoming: config.max_incoming,
                max_outgoing: config.max_outgoing,
                ..old(self)@
            }),
    {
        self.traffic_unit = config.get_traffic_unit();
        self.data_unit = config.get_data_unit();
        self.show_multiple = config.multiple_devices;
        self.max_incoming = config.max_incoming;
        self.max_outgoing = config.max_outgoing;
    }

    /// Reports the outcome of saving the settings in the options window:
    /// a confirmation, or the failure's description.
    pub fn report_save(&mut self, failure: Option<&str>)
        ensures
            final(self)@ == (ControlsView {
                message: Some(
                    match failure {
                        None => "✅ Settings saved to ~/.netwatch"@,
                        Some(e) => "❌ Save failed: "@ + e@,
                    },
                ),
                ..old(self)@
            }),
    {
        match failure {
            None => {
                self.settings_message = Some(string_of("✅ Settings saved to ~/.netwatch"));
            },
            Some(e) => {
                let mut m = string_of("❌ Save failed: ");
                m.append(e);
                self.settings_message = Some(m);
            },
        }
    }

    /// Reports the outcome of reloading the settings in the options
    /// window; reloaded settings are taken over.
    pub fn report_reload(&mut self, outcome: core::result::Result<&Config, &str>)
        ensures
            match outcome {
                Ok(c) => final(self)@ == (ControlsView {
                    traffic_unit: match unit_of_code(c.traffic_format@) {
                        Some(u) => u,
                        None => TrafficUnit::KiloBit,
                    },
                    data_unit: match unit_of_code(c.data_format@) {
                        Some(u) => u,
                        None => TrafficUnit::MegaByte,
                    },
                    show_multiple: c.multiple_devices,
                    max_incoming: c.max_incoming,
                    max_outgoing: c.max_outgoing,
                    message: Some("✅ Settings reloaded from ~/.netwatch"@),
                    ..old(self)@
                }),
                Err(e) => final(self)@ == (ControlsView {
                    message: Some("❌ Reload failed: "@ + e@),
                    ..old(self)@
                }),
            },
    {
        match outcome {
            Ok(c) => {
                self.apply_config(c);
                self.settings_message = Some(string_of("✅ Settings reloaded from ~/.netwatch"));
            },
            Err(e) => {
                let mut m = string_of("❌ Reload failed: ");
                m.append(e);
                self.settings_message = Some(m);
            },
        }
    }
}

/// The options window's refresh and average settings stay within their
/// bounds once inside them: adjusting them never leaves 50..=2000 ms and
/// 30..=1800 s.
pub proof fn law_option_bounds(v: ControlsView, c: ConfigView, e: InputEvent)
    requires
        v.show_options,
        MIN_UI_REFRESH <= c.refresh_interval <= MAX_UI_REFRESH,
        MIN_UI_AVERAGE <= c.average_window <= MAX_UI_AVERAGE,
    ensures
        MIN_UI_REFRESH <= control_step(v, c, e).1.refresh_interval <= MAX_UI_REFRESH,
        MIN_UI_AVERAGE <= control_step(v, c, e).1.average_window <= MAX_UI_AVERAGE,
{
}

/// Moving to the next device and back returns to the same device.
pub proof fn law_next_prev_device(v: ControlsView, c: ConfigView)
    requires
        !v.show_options,
        controls_ok(v),
    ensures
        ({
            let (v1, c1, _) = control_step(v, c, InputEvent::NextDevice);
            control_step(v1, c1, InputEvent::PrevDevice).0.current_device_index
                == v.current_device_index
        }),
{
    let i = v.current_device_index as int;
    let n = v.device_count as int;
    if n > 0 {
        if i + 1 < n {
            assert((i + 1) % n == i + 1) by (nonlinear_arith)
                requires
                    0 <= i + 1 < n,
            ;
        } else {
            assert((i + 1) % n == 0) by (nonlinear_arith)
                requires
                    i + 1 == n,
                    n > 0,
            ;
        }
    }
}

} // verus!
