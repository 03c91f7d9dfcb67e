//! Settings values and the templates of the text outputs.
use vstd::prelude::*;

use crate::text;

verus! {

/// Units of measurement.
#[derive(PartialEq, Eq, Structural, Clone, Copy, Debug)]
pub enum Units {
    Metric,
    Imperial,
}

impl Default for Units {
    fn default() -> (res: Units)
        ensures
            res == Units::Metric,
    {
        Units::Metric
    }
}

/// The unit suffixes shown beside values.
pub struct UnitStrings {
    pub temperature: String,
    pub wind_speed: String,
    pub precipitation: String,
    pub pressure: String,
    pub humidity: String,
}

impl UnitStrings {
    /// Metric suffixes: `°C`, `km/h`, `mm`, `hPa`, `%`.
    pub fn metric() -> (res: UnitStrings)
        ensures
            res.temperature@ == "\u{b0}C"@,
            res.wind_speed@ == "km/h"@,
            res.precipitation@ == "mm"@,
            res.pressure@ == "hPa"@,
            res.humidity@ == "%"@,
    {
        UnitStrings {
            temperature: "\u{b0}C".to_owned(),
            wind_speed: "km/h".to_owned(),
            precipitation: "mm".to_owned(),
            pressure: "hPa".to_owned(),
            humidity: "%".to_owned(),
        }
    }

    /// Imperial suffixes: `°F`, `mph`, `in`, `hPa`, `%`.
    pub fn imperial() -> (res: UnitStrings)
        ensures
            res.temperature@ == "\u{b0}F"@,
            res.wind_speed@ == "mph"@,
            res.precipitation@ == "in"@,
            res.pressure@ == "hPa"@,
            res.humidity@ == "%"@,
    {
        UnitStrings {
            temperature: "\u{b0}F".to_owned(),
            wind_speed: "mph".to_owned(),
            precipitation: "in".to_owned(),
            pressure: "hPa".to_owned(),
            humidity: "%".to_owned(),
        }
    }
}

impl Units {
    /// The name of the units in weather API requests.
    pub fn as_str(&self) -> (res: &'static str)
        ensures
            res@ == match self {
                Units::Metric => "metric"@,
                Units::Imperial => "imperial"@,
            },
    {
        match self {
            Units::Metric => "metric",
            Units::Imperial => "imperial",
        }
    }

    /// The unit suffixes for these units.
    pub fn to_unit_strings(&self) -> (res: UnitStrings)
        ensures
            match self {
                Units::Metric => res.temperature@ == "\u{b0}C"@ && res.wind_speed@ == "km/h"@
                    && res.precipitation@ == "mm"@,
                Units::Imperial => res.temperature@ == "\u{b0}F"@ && res.wind_speed@ == "mph"@
                    && res.precipitation@ == "in"@,
            },
            res.pressure@ == "hPa"@,
            res.humidity@ == "%"@,
    {
        match self {
            Units::Metric => UnitStrings::metric(),
            Units::Imperial => UnitStrings::imperial(),
        }
    }
}

/// The display formats.
#[derive(PartialEq, Eq, Structural, Clone, Copy, Debug)]
pub enum OutputFormat {
    Tui,
    Simple,
    Detailed,
    Json,
    Waybar,
}

impl Default for OutputFormat {
    fn default() -> (res: OutputFormat)
        ensures
            res == OutputFormat::Tui,
    {
        OutputFormat::Tui
    }
}

/// Settings of the simple output.
pub struct SimpleConfig {
    /// A template that replaces the default one.
    pub template: Option<String>,
}

impl Default for SimpleConfig {
    fn default() -> (res: SimpleConfig)
        ensures
            res.template is None,
    {
        SimpleConfig { template: None }
    }
}

/// The simple output's template when none is configured.
pub open spec fn simple_default() -> Seq<char> {
    "{weather_description} {temperature | round}{temperature_unit} | Wind {wind_speed | round} \u{ea9f} {wind_gusts | round}{{if precipitation_chance}} | Precipitation {precipitation_chance}%{{endif}}"@
}

/// The Waybar text template when none is configured.
pub open spec fn waybar_text_default() -> Seq<char> {
    "{weather_icon} {temperature | round}{temperature_unit}{{if precipitation_sum}} \u{f0597} {precipitation_chance}%{{endif}}"@
}

/// The Waybar tooltip template when none is configured.
pub open spec fn waybar_tooltip_default() -> Seq<char> {
    "{city}, {country}\n{weather_description}\nFeels Like  {feels_like} {temperature_unit}\nForecast    {temperature_low | round} \u{2192} {temperature_high| round} {temperature_unit}\nHumidity    {humidity}{humidity_unit}\nPressure    {pressure} {pressure_unit}\nWind        {wind_speed} \u{2192} {wind_gusts} {wind_speed_unit} ({wind_compass})\nPrecip      {precipitation_sum} {precipitation_unit} ({precipitation_chance}% chance)\n{{if precipitation_description}}            {precipitation_description}{{endif}}\n\u{e34c} {sunrise}   \u{e34d} {sunset}"@
}

/// The configured template, or the default one.
pub open spec fn chosen_template(custom: Option<String>, default: Seq<char>) -> Seq<char> {
    match custom {
        Some(t) => t@,
        None => default,
    }
}

/// The one-line summary output: its rendered text.
pub struct SimpleOutput {
    pub template: String,
}

impl SimpleOutput {
    /// The template to render: the configured one, else the default.
    pub fn template_source(custom: Option<String>) -> (res: String)
        ensures
            res@ == chosen_template(custom, simple_default()),
    {
        match custom {
            Some(t) => t,
            None => "{weather_description} {temperature | round}{temperature_unit} | Wind {wind_speed | round} \u{ea9f} {wind_gusts | round}{{if precipitation_chance}} | Precipitation {precipitation_chance}%{{endif}}".to_owned(),
        }
    }

    /// The output holding its rendered text.
    pub fn new(template: String) -> (res: SimpleOutput)
        ensures
            res.template == template,
    {
        SimpleOutput { template }
    }

    /// The rendered text.
    pub fn render(&self) -> (res: String)
        ensures
            res == self.template,
    {
        self.template.clone()
    }
}

/// The detailed template's lines before the precipitation line, each ended
/// by a newline.
pub open spec fn detailed_head() -> Seq<char> {
    "{city}, {country}\n    Current:     {temperature}{temperature_unit} {weather_description}\n    Feels Like:  {feels_like}{temperature_unit}\n    Humidity:    {humidity}{humidity_unit}\n    Pressure:    {pressure}{pressure_unit}\n    Wind:        {wind_speed}{wind_speed_unit} with gusts up to {wind_gusts}{wind_speed_unit} ({wind_compass})\n    UV Index:    {uv_index}\n"@
}

/// The detailed template's lines after the precipitation line, each begun
/// by a newline.
pub open spec fn detailed_tail() -> Seq<char> {
    "\n    Sunrise:     {sunrise}\n    Sunset:      {sunset}\n\n    {{ for day in forecast -}}\n    {day.date}    {day.temperature_low | round} \u{2192} {day.temperature_high | round}{temperature_unit} {day.weather_description}\n    {{ endfor }}"@
}

/// The detailed template's precipitation line, naming when precipitation
/// is expected where that is known.
pub open spec fn precip_line(description: Option<Seq<char>>) -> Seq<char> {
    match description {
        Some(d) => "    Precip:      {precipitation_sum} {precipitation_unit} ({precipitation_chance}% chance, "@ + d + ")"@,
        None => "    Precip:      {precipitation_sum} {precipitation_unit} ({precipitation_chance}% chance)"@,
    }
}

/// The multi-line detailed output: its rendered text.
pub struct DetailedOutput {
    pub template: String,
}

impl DetailedOutput {
    /// The detailed template: current conditions, then a line per forecast
    /// day; the precipitation line names its timing when one is given.
    pub fn template_source(precipitation_description: Option<&str>) -> (res: String)
        ensures
            res@ == detailed_head() + precip_line(
                match precipitation_description {
                    Some(d) => Some(d@),
                    None => None,
                },
            ) + detailed_tail(),
    {
        let mut s = String::new();
        s.append("{city}, {country}\n    Current:     {temperature}{temperature_unit} {weather_description}\n    Feels Like:  {feels_like}{temperature_unit}\n    Humidity:    {humidity}{humidity_unit}\n    Pressure:    {pressure}{pressure_unit}\n    Wind:        {wind_speed}{wind_speed_unit} with gusts up to {wind_gusts}{wind_speed_unit} ({wind_compass})\n    UV Index:    {uv_index}\n");
        match precipitation_description {
            Some(d) => {
                s.append("    Precip:      {precipitation_sum} {precipitation_unit} ({precipitation_chance}% chance, ");
                s.append(d);
                s.append(")");
            },
            None => {
                s.append("    Precip:      {precipitation_sum} {precipitation_unit} ({precipitation_chance}% chance)");
            },
        }
        s.append("\n    Sunrise:     {sunrise}\n    Sunset:      {sunset}\n\n    {{ for day in forecast -}}\n    {day.date}    {day.temperature_low | round} \u{2192} {day.temperature_high | round}{temperature_unit} {day.weather_description}\n    {{ endfor }}");
        s
    }

    /// The output holding its rendered text.
    pub fn new(template: String) -> (res: DetailedOutput)
        ensures
            res.template == template,
    {
        DetailedOutput { template }
    }

    /// The rendered text.
    pub fn render(&self) -> (res: String)
        ensures
            res == self.template,
    {
        self.template.clone()
    }
}

/// The status-bar output for Waybar: text, tooltip, CSS classes and a
/// percentage that is always 100.
pub struct WaybarOutput {
    pub text: String,
    pub tooltip: String,
    pub class: Vec<String>,
    pub percentage: i8,
}

impl WaybarOutput {
    /// The text template: the configured one, else the default.
    pub fn text_template_source(custom: Option<String>) -> (res: String)
        ensures
            res@ == chosen_template(custom, waybar_text_default()),
    {
        match custom {
            Some(t) => t,
            None => "{weather_icon} {temperature | round}{temperature_unit}{{if precipitation_sum}} \u{f0597} {precipitation_chance}%{{endif}}".to_owned(),
        }
    }

    /// The tooltip template: the configured one, else the default.
    pub fn tooltip_template_source(custom: Option<String>) -> (res: String)
        ensures
            res@ == chosen_template(custom, waybar_tooltip_default()),
    {
        match custom {
            Some(t) => t,
            None => "{city}, {country}\n{weather_description}\nFeels Like  {feels_like} {temperature_unit}\nForecast    {temperature_low | round} \u{2192} {temperature_high| round} {temperature_unit}\nHumidity    {humidity}{humidity_unit}\nPressure    {pressure} {pressure_unit}\nWind        {wind_speed} \u{2192} {wind_gusts} {wind_speed_unit} ({wind_compass})\nPrecip      {precipitation_sum} {precipitation_unit} ({precipitation_chance}% chance)\n{{if precipitation_description}}            {precipitation_description}{{endif}}\n\u{e34c} {sunrise}   \u{e34d} {sunset}".to_owned(),
        }
    }

    /// The output for rendered text and tooltip and the CSS classes.
    pub fn new(text: String, tooltip: String, class: Vec<String>) -> (res: WaybarOutput)
        ensures
            res.text == text,
            res.tooltip == tooltip,
            res.class == class,
            res.percentage == 100,
    {
        WaybarOutput { text, tooltip, class, percentage: 100 }
    }
}

} // verus!
