use outside::settings::{
    DetailedOutput, OutputFormat, SimpleConfig, SimpleOutput, Units, WaybarOutput,
};

#[test]
fn units_names_and_suffixes() {
    assert_eq!(Units::Metric.as_str(), "metric");
    assert_eq!(Units::Imperial.as_str(), "imperial");
    assert_eq!(Units::default(), Units::Metric);
    let metric = Units::Metric.to_unit_strings();
    assert_eq!(metric.temperature, "°C");
    assert_eq!(metric.wind_speed, "km/h");
    let imperial = Units::Imperial.to_unit_strings();
    assert_eq!(imperial.temperature, "°F");
    assert_eq!(imperial.precipitation, "in");
}

#[test]
fn defaults() {
    assert_eq!(OutputFormat::default(), OutputFormat::Tui);
    assert!(SimpleConfig::default().template.is_none());
}

#[test]
fn simple_template() {
    assert_eq!(SimpleOutput::template_source(Some("{city}".to_string())), "{city}");
    let default = SimpleOutput::template_source(None);
    assert!(default.starts_with("{weather_description} {temperature | round}"));
    assert!(default.ends_with("{{endif}}"));
    let out = SimpleOutput::new("rendered".to_string());
    assert_eq!(out.render(), "rendered");
}

#[test]
fn detailed_template() {
    let plain = DetailedOutput::template_source(None);
    let lines: Vec<&str> = plain.split('\n').collect();
    assert_eq!(lines.len(), 14);
    assert_eq!(lines[0], "{city}, {country}");
    assert_eq!(
        lines[7],
        "    Precip:      {precipitation_sum} {precipitation_unit} ({precipitation_chance}% chance)"
    );
    assert_eq!(lines[10], "");
    assert_eq!(lines[13], "    {{ endfor }}");
    let timed = DetailedOutput::template_source(Some("until 5pm"));
    assert!(timed.contains("({precipitation_chance}% chance, until 5pm)\n    Sunrise:"));
    assert_eq!(DetailedOutput::new("x".to_string()).render(), "x");
}

#[test]
fn waybar_templates() {
    assert_eq!(WaybarOutput::text_template_source(Some("t".to_string())), "t");
    assert!(WaybarOutput::text_template_source(None).starts_with("{weather_icon} "));
    assert!(WaybarOutput::tooltip_template_source(None).starts_with("{city}, {country}\n"));
    let out = WaybarOutput::new("a".to_string(), "b".to_string(), vec!["hot".to_string()]);
    assert_eq!(out.percentage, 100);
    assert_eq!(out.class, vec!["hot"]);
}
