use netwatch::cli::{Args, TrafficUnit};
use netwatch::config::Config;
use netwatch::controls::{ControlAction, DisplayControls};
use netwatch::dashboard::{
    common_network_issues, interface_activity, network_health, server_health, traffic_spike,
    DashboardAction, DashboardNav, DashboardPanel, HealthGrade, InterfaceActivity, ServerHealth,
};
use netwatch::input::{InputEvent, KeyCode, KeyInput, MOD_CONTROL, MOD_SHIFT};

fn key(code: KeyCode, modifiers: u8) -> InputEvent {
    InputEvent::from_key_event(KeyInput { code, modifiers })
}

#[test]
fn keys_map_to_commands() {
    assert_eq!(key(KeyCode::Tab, 0), InputEvent::NextPanel);
    assert_eq!(key(KeyCode::Tab, MOD_SHIFT), InputEvent::PrevPanel);
    assert_eq!(key(KeyCode::Tab, MOD_CONTROL), InputEvent::Unknown);
    assert_eq!(key(KeyCode::BackTab, 0), InputEvent::PrevPanel);
    assert_eq!(key(KeyCode::F(2), 0), InputEvent::ShowOptions);
    assert_eq!(key(KeyCode::F(5), 0), InputEvent::SaveSettings);
    assert_eq!(key(KeyCode::F(6), 0), InputEvent::ReloadSettings);
    assert_eq!(key(KeyCode::F(7), 0), InputEvent::Unknown);
    assert_eq!(key(KeyCode::Char('q'), 0), InputEvent::Quit);
    assert_eq!(key(KeyCode::Char(' '), 0), InputEvent::Pause);
    assert_eq!(key(KeyCode::Char('U'), 0), InputEvent::ToggleDataUnits);
    assert_eq!(key(KeyCode::Char('z'), 0), InputEvent::Unknown);
    assert_eq!(key(KeyCode::Esc, 0), InputEvent::Quit);
    assert_eq!(key(KeyCode::Enter, 0), InputEvent::ToggleMultiple);
    assert_eq!(key(KeyCode::Char('c'), MOD_CONTROL), InputEvent::Quit);
    assert_eq!(key(KeyCode::Char('c'), MOD_CONTROL | MOD_SHIFT), InputEvent::Quit);
    assert_eq!(key(KeyCode::Char('c'), 0), InputEvent::Unknown);
}

#[test]
fn units_cycle_and_read_back() {
    assert_eq!(TrafficUnit::HumanBit.next(), TrafficUnit::HumanByte);
    assert_eq!(TrafficUnit::GigaByte.next(), TrafficUnit::HumanBit);
    assert_eq!(TrafficUnit::KiloBit.to_string(), "k");
    assert_eq!(TrafficUnit::from_string("M"), Some(TrafficUnit::MegaByte));
    assert_eq!(TrafficUnit::from_string("x"), None);
    let mut u = TrafficUnit::Bit;
    for _ in 0..10 {
        u = u.next();
    }
    assert_eq!(u, TrafficUnit::Bit);
}

#[test]
fn default_settings() {
    let c = Config::default();
    assert_eq!(c.average_window, 300);
    assert_eq!(c.refresh_interval, 500);
    assert_eq!(c.devices, "all");
    assert_eq!(c.get_traffic_unit(), TrafficUnit::KiloBit);
    assert_eq!(c.get_data_unit(), TrafficUnit::MegaByte);
    assert!(!c.diagnostic_targets.is_empty());
}

#[test]
fn nload_settings_file() {
    let c = Config::parse_nload_format(
        "AverageWindow=\"60\"\nBarMaxIn=\"1000\"\nDevices=\"eth0 wlan0\"\nMultipleDevices=\"true\"\nTrafficFormat=\"M\"\n# comment\nRefreshInterval=\"bad\"\n",
    );
    assert_eq!(c.average_window, 60);
    assert_eq!(c.max_incoming, 1000);
    assert_eq!(c.devices, "eth0 wlan0");
    assert!(c.multiple_devices);
    assert_eq!(c.get_traffic_unit(), TrafficUnit::MegaByte);
    assert_eq!(c.refresh_interval, 500);
}

#[test]
fn arguments_override_settings() {
    let mut c = Config::default();
    let mut a = Args::default();
    a.average_window = 120;
    a.refresh_interval = 1000;
    a.traffic_unit = TrafficUnit::GigaBit;
    a.multiple_devices = true;
    c.apply_args(&a);
    assert_eq!(c.average_window, 120);
    assert_eq!(c.refresh_interval, 1000);
    assert_eq!(c.get_traffic_unit(), TrafficUnit::GigaBit);
    assert!(c.multiple_devices);
}

#[test]
fn classic_display_commands() {
    let mut config = Config::default();
    let mut d = DisplayControls::new(3, &config);
    assert_eq!(d.handle_input(InputEvent::NextDevice, &mut config), ControlAction::Continue);
    assert_eq!(d.current_device_index, 1);
    d.handle_input(InputEvent::PrevDevice, &mut config);
    d.handle_input(InputEvent::PrevDevice, &mut config);
    assert_eq!(d.current_device_index, 2);
    assert_eq!(d.handle_input(InputEvent::Reset, &mut config), ControlAction::ResetDevice(2));
    assert_eq!(d.handle_input(InputEvent::ZoomIn, &mut config), ControlAction::ZoomIn);
    d.handle_input(InputEvent::Pause, &mut config);
    assert!(d.paused);
    assert_eq!(d.handle_input(InputEvent::Quit, &mut config), ControlAction::Quit);
}

#[test]
fn options_window_changes_settings() {
    let mut config = Config::default();
    let mut d = DisplayControls::new(1, &config);
    d.handle_input(InputEvent::ShowOptions, &mut config);
    assert!(d.show_options);
    d.handle_input(InputEvent::IncreaseRefresh, &mut config);
    assert_eq!(config.refresh_interval, 450);
    d.handle_input(InputEvent::DecreaseAverage, &mut config);
    assert_eq!(config.average_window, 270);
    d.handle_input(InputEvent::ToggleTrafficUnits, &mut config);
    assert_eq!(
        d.handle_input(InputEvent::SaveSettings, &mut config),
        ControlAction::SaveSettings { in_options: true }
    );
    assert_eq!(config.get_traffic_unit(), TrafficUnit::KiloByte);
    // Quit closes the options window instead of quitting.
    assert_eq!(d.handle_input(InputEvent::Quit, &mut config), ControlAction::Continue);
    assert!(!d.show_options);
}

#[test]
fn dashboard_panels() {
    let all = DashboardPanel::all();
    assert_eq!(all.len(), 10);
    assert_eq!(all[0], DashboardPanel::Overview);
    assert_eq!(DashboardPanel::System.title(), "System Info");
    let mut nav = DashboardNav::new(TrafficUnit::HumanBit);
    assert_eq!(nav.active_panel, DashboardPanel::Overview);
    nav.prev_panel();
    assert_eq!(nav.active_panel, DashboardPanel::Settings);
    nav.next_panel();
    nav.next_panel();
    assert_eq!(nav.active_panel, DashboardPanel::Interfaces);
    let (action, redraw) = nav.handle_event(InputEvent::NextItem, 3);
    assert_eq!(action, DashboardAction::Continue);
    assert!(redraw);
    assert_eq!(nav.selected_item, 1);
    let (action, _) = nav.handle_event(InputEvent::Quit, 3);
    assert_eq!(action, DashboardAction::Quit);
}

#[test]
fn interface_activity_prefers_errors_then_traffic() {
    assert_eq!(interface_activity(1, 0, 500, 0), InterfaceActivity::Error);
    assert_eq!(interface_activity(0, 0, 0, 7), InterfaceActivity::Active);
    assert_eq!(interface_activity(0, 0, 0, 0), InterfaceActivity::Idle);
}

#[test]
fn quick_diagnostics_findings() {
    assert_eq!(
        common_network_issues(true, false, 10),
        vec![
            ("✅ Network appears healthy", "→ Monitor bandwidth usage and error rates"),
            ("💡 Pro tip", "→ Use other tabs for detailed interface/connection analysis"),
        ]
    );
    let all = common_network_issues(false, true, 0);
    assert_eq!(all.len(), 2);
    assert_eq!(all[0].0, "🔴 Network errors detected");
    assert_eq!(all[1].0, "⚠️ No network activity");
    let busy = common_network_issues(true, false, 101);
    assert_eq!(busy, vec![("🟡 High connection count", "→ Check for connection leaks, DDoS, load")]);
}

#[test]
fn overview_verdicts() {
    assert_eq!(server_health(true, 0, 0, 1), ServerHealth::ErrorsDetected);
    assert_eq!(server_health(false, 60 * 1024 * 1024, 0, 1), ServerHealth::HighBandwidth);
    assert_eq!(server_health(false, 1000, 101, 1), ServerHealth::HighConnectionCount);
    assert_eq!(server_health(false, 101, 0, 1), ServerHealth::NetworkOk);
    assert_eq!(server_health(false, 100, 0, 1), ServerHealth::Quiet);
    assert_eq!(server_health(false, 0, 0, 0), ServerHealth::NoInterfaces);
    assert_eq!(network_health(0, 0, 0), HealthGrade::Excellent);
    assert_eq!(network_health(9, 9, 4), HealthGrade::Good);
    assert_eq!(network_health(10, 0, 0), HealthGrade::Issues);
    assert!(traffic_spike(501, 100));
    assert!(!traffic_spike(500, 100));
    assert!(!traffic_spike(500, 0));
}
