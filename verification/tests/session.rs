use clickthrough::session::{BiasChoice, ClickState};

#[test]
fn new_state_defaults() {
    let s = ClickState::new();
    assert_eq!(s.resonator, 0);
    assert!(s.show_mag);
    assert!(!s.show_settings);
    assert!(s.setting_for(0).is_none());
}

#[test]
fn click_records_and_advances() {
    let mut s = ClickState::new();
    s.record_click(BiasChoice { output_atten: 3, freq: 7 });
    assert_eq!(s.resonator, 1);
    assert_eq!(*s.setting_for(0).unwrap(), BiasChoice { output_atten: 3, freq: 7 });
    assert!(s.setting_for(1).is_none());
    s.record_click(BiasChoice { output_atten: 1, freq: 2 });
    assert_eq!(s.resonator, 2);
    assert_eq!(*s.setting_for(0).unwrap(), BiasChoice { output_atten: 3, freq: 7 });
    assert_eq!(*s.setting_for(1).unwrap(), BiasChoice { output_atten: 1, freq: 2 });
}

#[test]
fn click_on_revisited_resonator_replaces_entry() {
    let mut s = ClickState::new();
    s.record_click(BiasChoice { output_atten: 3, freq: 7 });
    s.record_click(BiasChoice { output_atten: 1, freq: 2 });
    s.resonator = 0;
    s.record_click(BiasChoice { output_atten: 5, freq: 6 });
    assert_eq!(s.resonator, 1);
    assert_eq!(*s.setting_for(0).unwrap(), BiasChoice { output_atten: 5, freq: 6 });
    assert_eq!(*s.setting_for(1).unwrap(), BiasChoice { output_atten: 1, freq: 2 });
    assert_eq!(s.settings.len(), 2);
}

#[test]
fn toggle_settings_flips() {
    let mut s = ClickState::new();
    s.toggle_settings();
    assert!(s.show_settings);
    s.toggle_settings();
    assert!(!s.show_settings);
    assert!(s.show_mag);
}
