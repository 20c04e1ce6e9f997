use flowsurface::chart::kline::Config;
use flowsurface::chart::kline::FootprintStudy;
use flowsurface::i18n::Language;
use flowsurface::modal::setting_window::Action;
use flowsurface::modal::setting_window::Message;
use flowsurface::modal::setting_window::ScaleFactor;
use flowsurface::modal::setting_window::SettingWindow;
use flowsurface::modal::setting_window::Theme;
use flowsurface::modal::setting_window::UserTimezone;

#[test]
fn language_codes() {
    assert_eq!(Language::English.code(), "en-US");
    assert_eq!(Language::SimplifiedChinese.code(), "zh-CN");
}

#[test]
fn language_names() {
    assert_eq!(Language::English.display_name(), "English");
    assert_eq!(Language::SimplifiedChinese.display_name(), "简体中文");
    assert_eq!(Language::English.to_string(), "English");
    assert_eq!(Language::SimplifiedChinese.to_string(), "简体中文");
}

#[test]
fn language_from_code() {
    assert_eq!(Language::from_code("en-US".to_string()), Language::English);
    assert_eq!(Language::from_code("zh-CN".to_string()), Language::SimplifiedChinese);
    assert_eq!(Language::from_code("fr-FR".to_string()), Language::English);
    assert_eq!(Language::from_code(String::new()), Language::English);
    assert_eq!(Language::from_code("zh-cn".to_string()), Language::English);
}

#[test]
fn a_language_comes_back_from_its_code() {
    for language in [Language::English, Language::SimplifiedChinese] {
        assert_eq!(Language::from_code(language.code().to_string()), language);
    }
}

#[test]
fn studies_of_one_kind() {
    let npoc = FootprintStudy::NPoC { lookback: 80 };
    let other_npoc = FootprintStudy::NPoC { lookback: 5 };
    let imbalance =
        FootprintStudy::Imbalance { threshold: 200, color_scale: Some(400), ignore_zeros: true };
    let other_imbalance =
        FootprintStudy::Imbalance { threshold: 1, color_scale: None, ignore_zeros: false };
    assert!(npoc.is_same_type(&other_npoc));
    assert!(imbalance.is_same_type(&other_imbalance));
    assert!(!npoc.is_same_type(&imbalance));
    assert!(!imbalance.is_same_type(&npoc));
}

#[test]
fn studies_and_their_names() {
    let all = FootprintStudy::all();
    assert_eq!(all[0], FootprintStudy::NPoC { lookback: 80 });
    assert_eq!(
        all[1],
        FootprintStudy::Imbalance { threshold: 200, color_scale: Some(400), ignore_zeros: true }
    );
    assert_eq!(all[0].to_string(), "Naked Point of Control");
    assert_eq!(all[1].to_string(), "Imbalance");
}

#[test]
fn chart_config() {
    assert_eq!(Config::default(), Config {});
}

#[test]
fn every_message_has_its_action() {
    let mut window = SettingWindow::new();
    assert!(matches!(window.update(Message::CloseRequested), Some(Action::Close)));
    assert!(matches!(window.update(Message::OpenThemeEditor), Some(Action::OpenThemeEditor)));
    assert!(matches!(
        window.update(Message::SetTimezone(UserTimezone::Local)),
        Some(Action::TimezoneChanged(UserTimezone::Local))
    ));
    assert!(matches!(
        window.update(Message::SetTimezone(UserTimezone::Utc)),
        Some(Action::TimezoneChanged(UserTimezone::Utc))
    ));
    assert!(matches!(
        window.update(Message::ScaleFactorChanged(ScaleFactor { percent: 110 })),
        Some(Action::ScaleFactorChanged(ScaleFactor { percent: 110 }))
    ));
    assert!(matches!(
        window.update(Message::LanguageChanged(Language::SimplifiedChinese)),
        Some(Action::LanguageChanged(Language::SimplifiedChinese))
    ));
    match window.update(Message::ThemeSelected(Theme { name: "Ferra".to_string() })) {
        Some(Action::ThemeChanged(theme)) => assert_eq!(theme.name, "Ferra"),
        _ => panic!("a selected theme changes the theme"),
    }
    let _ = SettingWindow::default();
}
