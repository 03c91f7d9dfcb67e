use outside::display::{has_precipitation, Context, DailyForecast, HourlyForecast, WeatherDisplay};

fn hour(time: &str, temp: &str, precip: &str, prob: &str) -> HourlyForecast {
    HourlyForecast {
        time: time.to_string(),
        weather_icon: "*".to_string(),
        temperature: temp.to_string(),
        precipitation: precip.to_string(),
        precipitation_probability: prob.to_string(),
    }
}

fn day(date: &str, code: u8, low: &str, high: &str) -> DailyForecast {
    DailyForecast {
        date: date.to_string(),
        weather_icon: "~".to_string(),
        weather_description: "Rain".to_string(),
        weather_code: code,
        precipitation_chance: "80".to_string(),
        temperature_low: low.to_string(),
        temperature_high: high.to_string(),
    }
}

fn context() -> Context {
    Context {
        city: "London".to_string(),
        country: "GB".to_string(),
        weather_icon: "*".to_string(),
        weather_description: "Cloudy".to_string(),
        temperature: "12".to_string(),
        feels_like: "10".to_string(),
        temperature_unit: "°C".to_string(),
        humidity: "81".to_string(),
        pressure: "1013".to_string(),
        wind_speed: "14".to_string(),
        wind_gusts: "30".to_string(),
        wind_speed_unit: "km/h".to_string(),
        wind_compass: "SW".to_string(),
        uv_index: "2".to_string(),
        precipitation_sum: "0.4".to_string(),
        precipitation_unit: "mm".to_string(),
        precipitation_chance: "40".to_string(),
        precipitation_description: None,
        sunrise: "06:01".to_string(),
        sunset: "19:44".to_string(),
        hourly: Vec::new(),
        forecast: Vec::new(),
    }
}

#[test]
fn header_text() {
    assert_eq!(
        WeatherDisplay::format_header_text(&context()),
        "London, GB\n* 12°C • Cloudy • Feels like 10°C"
    );
}

#[test]
fn current_info() {
    let expected = "Temperature:     12°C\nHumidity:        81%\nPressure:        1013 hPa\nWind:            14 km/h with gusts up to 30 km/h (SW)\nUV Index:        2\nPrecipitation:   0.4 mm (40% chance)\nSun:             06:01 • 19:44";
    assert_eq!(WeatherDisplay::format_current_info(&context()), expected);

    let mut with_timing = context();
    with_timing.precipitation_description = Some("Rain from 3pm".to_string());
    let expected_timed = "Temperature:     12°C\nHumidity:        81%\nPressure:        1013 hPa\nWind:            14 km/h with gusts up to 30 km/h (SW)\nUV Index:        2\nPrecipitation:   0.4 mm (40% chance)\n                 Rain from 3pm\nSun:             06:01 • 19:44";
    assert_eq!(WeatherDisplay::format_current_info(&with_timing), expected_timed);
}

#[test]
fn hourly_grid_layout() {
    let mut c = context();
    c.hourly = vec![hour("09:00am", "7", "0.1", "84"), hour("10:00am", "-3", "12.5", "5")];
    c.hourly.push(hour("12:00pm", "22", "0.0", "100"));
    let text = WeatherDisplay::format_hourly_forecast_with_width(&c, 98);
    let lines: Vec<&str> = text.split('\n').collect();
    assert_eq!(lines.len(), 9);
    assert_eq!(lines[8], "");
    let cell0 = format!("{:<30}", " 9am *  7°C  0.1mm  84%");
    let blank = " ".repeat(30);
    assert_eq!(lines[0], format!("{cell0}    {blank}    {blank}"));
    let cell1 = format!("{:<30}", "10am * -3°C 12.5mm   5%");
    assert_eq!(lines[1], format!("{cell1}    {blank}    {blank}"));
    let cell2 = format!("{:<30}", "12pm * 22°C  0.0mm 100%");
    assert_eq!(lines[2], format!("{cell2}    {blank}    {blank}"));
    assert_eq!(lines[3], format!("{blank}    {blank}    {blank}"));
}

#[test]
fn hourly_grid_24_hour_and_fahrenheit() {
    let mut c = context();
    c.temperature_unit = "°F".to_string();
    c.precipitation_unit = "in".to_string();
    c.hourly = (0..24).map(|h| hour(&format!("{h:02}:00"), "50", "0.0", "0")).collect();
    let text = WeatherDisplay::format_hourly_forecast_with_width(&c, 8);
    let lines: Vec<&str> = text.split('\n').collect();
    assert_eq!(lines[0], "00:00 * 50°F  0.0in   0%    08:00 * 50°F  0.0in   0%    16:00 * 50°F  0.0in   0%");
    assert_eq!(lines[7], "07:00 * 50°F  0.0in   0%    15:00 * 50°F  0.0in   0%    23:00 * 50°F  0.0in   0%");
}

#[test]
fn available_width() {
    assert_eq!(WeatherDisplay::calculate_available_forecast_width(120), 86);
    assert_eq!(WeatherDisplay::calculate_available_forecast_width(60), 40);
    assert_eq!(WeatherDisplay::calculate_available_forecast_width(0), 40);
}

#[test]
fn hourly_forecast_has_eight_rows() {
    let text = WeatherDisplay::format_hourly_forecast(&context());
    assert_eq!(text.matches('\n').count(), 8);
}

#[test]
fn forecast_lines() {
    let mut c = context();
    c.forecast = vec![day("2024-05-01", 61, "8", "15"), day("2024-05-02", 3, "10", "9"), day("2024-05-03", 95, "-1", "3")];
    let text = WeatherDisplay::format_forecast_text(&c);
    assert_eq!(
        text,
        "Today      ~   8 → 15°C  Rain (80%)\nTomorrow   ~  10 → 9 °C  Rain\n2024-05-03 ~  -1 → 3 °C  Rain (80%)\n\n"
    );
    assert_eq!(WeatherDisplay::format_forecast_text(&context()), "\n");
}

#[test]
fn precipitation_codes() {
    assert!(has_precipitation(51));
    assert!(has_precipitation(65));
    assert!(has_precipitation(99));
    assert!(!has_precipitation(0));
    assert!(!has_precipitation(45));
    assert!(!has_precipitation(70));
}

#[test]
fn messages() {
    assert_eq!(WeatherDisplay::format_loading_message(), "Loading weather data...");
    assert_eq!(WeatherDisplay::format_wait_message(), "Please wait...");
    assert_eq!(WeatherDisplay::format_units_switching_message(), "Switching units...");
}

#[test]
fn default_terminal_width() {
    assert_eq!(WeatherDisplay::terminal_width(None), 120);
    assert_eq!(WeatherDisplay::terminal_width(Some(200)), 200);
    let c = context();
    assert_eq!(
        WeatherDisplay::format_hourly_forecast_for_terminal(&c, None),
        WeatherDisplay::format_hourly_forecast_with_width(&c, 86)
    );
    assert_eq!(
        WeatherDisplay::format_hourly_forecast_for_terminal(&c, Some(80)),
        WeatherDisplay::format_hourly_forecast_with_width(&c, 46)
    );
}
