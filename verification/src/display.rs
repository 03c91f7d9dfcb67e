//! The text panels of the interactive display: header, current conditions,
//! the 24-hour grid and the daily forecast.
use vstd::prelude::*;

use crate::text;

verus! {

/// One hour of the hourly forecast. Numbers appear as the text they are
/// displayed with.
pub struct HourlyForecast {
    /// `"09:00am"` in 12-hour mode, `"19:00"` in 24-hour mode.
    pub time: String,
    pub weather_icon: String,
    /// The temperature rounded to whole degrees.
    pub temperature: String,
    /// The precipitation with one decimal place.
    pub precipitation: String,
    /// The chance of precipitation in percent.
    pub precipitation_probability: String,
}

/// One day of the daily forecast. Numbers appear as the text they are
/// displayed with.
pub struct DailyForecast {
    pub date: String,
    pub weather_icon: String,
    pub weather_description: String,
    /// The WMO weather code of the day.
    pub weather_code: u8,
    /// The chance of precipitation in percent.
    pub precipitation_chance: String,
    /// The lowest temperature, rounded to whole degrees.
    pub temperature_low: String,
    /// The highest temperature, rounded to whole degrees.
    pub temperature_high: String,
}

/// What the display shows of the weather at a place. Numbers appear as the
/// text they are displayed with; temperatures and wind speeds are rounded to
/// whole units.
pub struct Context {
    pub city: String,
    pub country: String,
    pub weather_icon: String,
    pub weather_description: String,
    pub temperature: String,
    pub feels_like: String,
    pub temperature_unit: String,
    pub humidity: String,
    pub pressure: String,
    pub wind_speed: String,
    pub wind_gusts: String,
    pub wind_speed_unit: String,
    pub wind_compass: String,
    pub uv_index: String,
    pub precipitation_sum: String,
    pub precipitation_unit: String,
    pub precipitation_chance: String,
    /// When precipitation is expected, where that is known.
    pub precipitation_description: Option<String>,
    pub sunrise: String,
    pub sunset: String,
    pub hourly: Vec<HourlyForecast>,
    pub forecast: Vec<DailyForecast>,
}

/// The width of the location list beside the weather panel.
pub const LOCATION_LIST_WIDTH: usize = 24;

/// Whether a WMO weather code denotes precipitation: drizzle, rain, snow,
/// showers or thunderstorm.
pub open spec fn precipitating(code: u8) -> bool {
    ||| 51 <= code <= 67
    ||| 71 <= code <= 77
    ||| 80 <= code <= 86
    ||| 95 <= code <= 99
}

/// Whether a WMO weather code denotes precipitation.
pub fn has_precipitation(code: u8) -> (res: bool)
    ensures
        res == precipitating(code),
{
    (51 <= code && code <= 67) || (71 <= code && code <= 77) || (80 <= code && code <= 86) || (95
        <= code && code <= 99)
}

/// The header: place, then icon, temperature, description and felt
/// temperature.
pub open spec fn header_text(c: Context) -> Seq<char> {
    c.city@ + ", "@ + c.country@ + "\n"@ + c.weather_icon@ + " "@ + c.temperature@
        + c.temperature_unit@ + " \u{2022} "@ + c.weather_description@ + " \u{2022} Feels like "@
        + c.feels_like@ + c.temperature_unit@
}

/// The current-conditions panel.
pub open spec fn current_info_text(c: Context) -> Seq<char> {
    "Temperature:     "@ + c.temperature@ + c.temperature_unit@ + "\nHumidity:        "@
        + c.humidity@ + "%\nPressure:        "@ + c.pressure@ + " hPa\nWind:            "@
        + c.wind_speed@ + " "@ + c.wind_speed_unit@ + " with gusts up to "@ + c.wind_gusts@ + " "@
        + c.wind_speed_unit@ + " ("@ + c.wind_compass@ + ")\nUV Index:        "@ + c.uv_index@
        + "\nPrecipitation:   "@ + c.precipitation_sum@ + " "@ + c.precipitation_unit@ + " ("@
        + c.precipitation_chance@ + "% chance)"@ + match c.precipitation_description {
        Some(d) => "\n"@ + "                 "@ + d@,
        None => Seq::<char>::empty(),
    } + "\nSun:             "@ + c.sunrise@ + " \u{2022} "@ + c.sunset@
}

/// How an hour's time is shown: 12-hour times lose `:00` and a leading zero
/// (`"09:00am"` becomes `" 9am"`, right-aligned to four places), 24-hour
/// times are right-aligned to five places.
pub open spec fn time_text(t: Seq<char>) -> Seq<char> {
    if text::contains_seq(t, "am"@) || text::contains_seq(t, "pm"@) {
        let short = text::replace_all(t, ":00"@, Seq::<char>::empty());
        if short.len() > 0 && short[0] == '0' {
            seq![' '] + short.drop_first()
        } else {
            text::pad_left(short, 4)
        }
    } else {
        text::pad_left(t, 5)
    }
}

/// `F` when the temperature unit mentions it, else `C`.
pub open spec fn unit_letter(temperature_unit: Seq<char>) -> char {
    if text::contains_seq(temperature_unit, seq!['F']) {
        'F'
    } else {
        'C'
    }
}

/// One cell of the hourly grid, before padding: time, icon, temperature,
/// precipitation and its chance.
pub open spec fn hour_cell(h: HourlyForecast, letter: char, precipitation_unit: Seq<char>) -> Seq<
    char,
> {
    time_text(h.time@) + " "@ + h.weather_icon@ + " "@ + text::pad_left(h.temperature@, 2) + seq![
        '\u{b0}',
        letter,
    ] + " "@ + text::pad_left(h.precipitation@, 4) + precipitation_unit + " "@ + text::pad_left(
        h.precipitation_probability@,
        3,
    ) + "%"@
}

/// The width of a grid cell for a panel `available` characters wide: three
/// columns with four spaces between neighbours.
pub open spec fn cell_width_for(available: nat) -> nat {
    (if available >= 8 {
        available - 8
    } else {
        0
    }) as nat / 3
}

/// The grid cell for hour `index`: padded to the cell width, blank past the
/// last hour.
pub open spec fn grid_cell(c: Context, index: int, width: nat) -> Seq<char> {
    if index < c.hourly@.len() {
        text::pad_right(
            hour_cell(c.hourly@[index], unit_letter(c.temperature_unit@), c.precipitation_unit@),
            width,
        )
    } else {
        text::spaces(width)
    }
}

/// Row `row` of the hourly grid: hours `row`, `row + 8` and `row + 16`.
pub open spec fn grid_row(c: Context, row: int, width: nat) -> Seq<char> {
    grid_cell(c, row, width) + text::spaces(4) + grid_cell(c, 8 + row, width) + text::spaces(4)
        + grid_cell(c, 16 + row, width) + "\n"@
}

/// The first `rows` rows of the hourly grid.
pub open spec fn grid_rows(c: Context, rows: nat, width: nat) -> Seq<char>
    decreases rows,
{
    if rows == 0 {
        Seq::<char>::empty()
    } else {
        grid_rows(c, (rows - 1) as nat, width) + grid_row(c, rows - 1, width)
    }
}

/// The hourly forecast for a panel `available` characters wide: 24 hours
/// in three columns of eight rows, read column by column.
pub open spec fn hourly_text(c: Context, available: nat) -> Seq<char> {
    grid_rows(c, 8, cell_width_for(available))
}

/// How wide the weather panel is in a terminal `columns` wide: what the
/// location list (plus six for borders) and four margin characters leave,
/// but at least 40.
pub open spec fn panel_width(columns: nat) -> nat {
    let used = LOCATION_LIST_WIDTH + 6 + 4;
    let rest = if columns >= used {
        (columns - used) as nat
    } else {
        0nat
    };
    if rest >= 40 {
        rest
    } else {
        40
    }
}

/// The line of the daily forecast for the day at `index`.
pub open spec fn day_line(d: DailyForecast, index: int, temperature_unit: Seq<char>) -> Seq<char> {
    let date = if index == 0 {
        "Today"@
    } else if index == 1 {
        "Tomorrow"@
    } else {
        d.date@
    };
    let description = if precipitating(d.weather_code) {
        d.weather_description@ + " ("@ + d.precipitation_chance@ + "%)"@
    } else {
        d.weather_description@
    };
    text::pad_right(date, 10) + " "@ + d.weather_icon@ + "  "@ + text::pad_left(
        d.temperature_low@,
        2,
    ) + " \u{2192} "@ + text::pad_right(d.temperature_high@, 2) + temperature_unit + "  "@
        + description + "\n"@
}

/// The lines of the first `n` forecast days.
pub open spec fn day_lines(days: Seq<DailyForecast>, n: nat, temperature_unit: Seq<char>) -> Seq<
    char,
>
    decreases n,
{
    if n == 0 {
        Seq::<char>::empty()
    } else {
        day_lines(days, (n - 1) as nat, temperature_unit) + day_line(
            days[n - 1],
            n - 1,
            temperature_unit,
        )
    }
}

/// The daily forecast: a line per day, then an empty line.
pub open spec fn forecast_text(c: Context) -> Seq<char> {
    day_lines(c.forecast@, c.forecast@.len(), c.temperature_unit@) + "\n"@
}

/// The terminal width laid out for: the reported column count, else 120.
pub open spec fn terminal_width_or_default(reported: Option<u16>) -> usize {
    match reported {
        Some(c) => c as usize,
        None => 120,
    }
}

/// The width of the terminal, where it is one. Nothing is stated of the
/// answer, which depends on where the program runs.
#[verifier::external_body]
fn terminal_columns() -> (res: Option<u16>) {
    termsize::get().map(|size| size.cols)
}

/// The text panels of the interactive display.
pub struct WeatherDisplay;

impl WeatherDisplay {
    /// The header: `City, Country`, then icon, temperature, description and
    /// felt temperature.
    pub fn format_header_text(context: &Context) -> (res: String)
        ensures
            res@ == header_text(*context),
    {
        let mut s = String::new();
        s.append(context.city.as_str());
        s.append(", ");
        s.append(context.country.as_str());
        s.append("\n");
        s.append(context.weather_icon.as_str());
        s.append(" ");
        s.append(context.temperature.as_str());
        s.append(context.temperature_unit.as_str());
        s.append(" \u{2022} ");
        s.append(context.weather_description.as_str());
        s.append(" \u{2022} Feels like ");
        s.append(context.feels_like.as_str());
        s.append(context.temperature_unit.as_str());
        s
    }

    /// The current conditions, one per line, with the precipitation timing
    /// where known and the sunrise and sunset times.
    pub fn format_current_info(context: &Context) -> (res: String)
        ensures
            res@ == current_info_text(*context),
    {
        let mut s = String::new();
        s.append("Temperature:     ");
        s.append(context.temperature.as_str());
        s.append(context.temperature_unit.as_str());
        s.append("\nHumidity:        ");
        s.append(context.humidity.as_str());
        s.append("%\nPressure:        ");
        s.append(context.pressure.as_str());
        s.append(" hPa\nWind:            ");
        s.append(context.wind_speed.as_str());
        s.append(" ");
        s.append(context.wind_speed_unit.as_str());
        s.append(" with gusts up to ");
        s.append(context.wind_gusts.as_str());
        s.append(" ");
        s.append(context.wind_speed_unit.as_str());
        s.append(" (");
        s.append(context.wind_compass.as_str());
        s.append(")\nUV Index:        ");
        s.append(context.uv_index.as_str());
        s.append("\nPrecipitation:   ");
        s.append(context.precipitation_sum.as_str());
        s.append(" ");
        s.append(context.precipitation_unit.as_str());
        s.append(" (");
        s.append(context.precipitation_chance.as_str());
        s.append("% chance)");
        let ghost before = s@;
        match &context.precipitation_description {
            Some(d) => {
                s.append("\n");
                s.append("                 ");
                s.append(d.as_str());
            },
            None => {},
        }
        s.append("\nSun:             ");
        s.append(context.sunrise.as_str());
        s.append(" \u{2022} ");
        s.append(context.sunset.as_str());
        assert(s@ =~= current_info_text(*context));
        s
    }

    /// The hourly forecast sized to the terminal the program runs in (120
    /// columns assumed where it reports no size).
    pub fn format_hourly_forecast(context: &Context) -> (res: String)
        ensures
            exists|reported: Option<u16>|
                res@ == hourly_text(*context, panel_width(terminal_width_or_default(reported) as nat)),
    {
        let reported = terminal_columns();
        Self::format_hourly_forecast_for_terminal(context, reported)
    }

    /// The hourly forecast for a terminal that reported `reported` columns
    /// (`None`: no size reported, 120 columns assumed).
    pub fn format_hourly_forecast_for_terminal(context: &Context, reported: Option<u16>) -> (res:
        String)
        ensures
            res@ == hourly_text(*context, panel_width(terminal_width_or_default(reported) as nat)),
    {
        let columns = Self::terminal_width(reported);
        let width = Self::calculate_available_forecast_width(columns);
        Self::format_hourly_forecast_with_width(context, width)
    }

    /// The terminal width to lay out for: the reported column count, else 120.
    pub fn terminal_width(reported: Option<u16>) -> (res: usize)
        ensures
            res == terminal_width_or_default(reported),
    {
        match reported {
            Some(c) => c as usize,
            None => 120,
        }
    }

    /// How wide the weather panel is in a terminal `terminal_width` wide.
    pub fn calculate_available_forecast_width(terminal_width: usize) -> (res: usize)
        ensures
            res == panel_width(terminal_width as nat),
    {
        let used: usize = LOCATION_LIST_WIDTH + 6 + 4;
        let rest = if terminal_width >= used {
            terminal_width - used
        } else {
            0
        };
        if rest >= 40 {
            rest
        } else {
            40
        }
    }

    /// The hourly forecast in a panel `available_width` characters wide:
    /// 24 hours in three columns of eight rows, each cell padded to a third
    /// of the width left by the column gaps.
    pub fn format_hourly_forecast_with_width(context: &Context, available_width: usize) -> (res:
        String)
        ensures
            res@ == hourly_text(*context, available_width as nat),
    {
        let cell_width: usize = (if available_width >= 8 {
            available_width - 8
        } else {
            0
        }) / 3;
        let unit_chars = text::chars_of(context.temperature_unit.as_str());
        let mut f_pat: Vec<char> = Vec::new();
        f_pat.push('F');
        assert(f_pat@ =~= seq!['F']);
        let letter = if text::contains_chars(unit_chars.as_slice(), f_pat.as_slice()) {
            'F'
        } else {
            'C'
        };
        let punit = text::chars_of(context.precipitation_unit.as_str());
        let mut out: Vec<char> = Vec::new();
        let mut row: usize = 0;
        while row < 8
            invariant
                row <= 8,
                cell_width == cell_width_for(available_width as nat),
                letter == unit_letter(context.temperature_unit@),
                punit@ == context.precipitation_unit@,
                out@ == grid_rows(*context, row as nat, cell_width as nat),
            decreases 8 - row,
        {
            let c0 = Self::grid_cell_chars(context, row, cell_width, letter, punit.as_slice());
            let c1 = Self::grid_cell_chars(context, 8 + row, cell_width, letter, punit.as_slice());
            let c2 = Self::grid_cell_chars(context, 16 + row, cell_width, letter, punit.as_slice());
            let ghost before = out@;
            text::push_all(&mut out, c0.as_slice());
            text::push_repeat(&mut out, ' ', 4);
            text::push_all(&mut out, c1.as_slice());
            text::push_repeat(&mut out, ' ', 4);
            text::push_all(&mut out, c2.as_slice());
            out.push('\n');
            proof {
                reveal_strlit("\n");
                assert(Seq::new(4, |i: int| ' ') =~= text::spaces(4));
            }
            assert(out@ =~= before + grid_row(*context, row as int, cell_width as nat));
            row = row + 1;
        }
        text::string_of(&out)
    }

    fn grid_cell_chars(
        context: &Context,
        index: usize,
        width: usize,
        letter: char,
        punit: &[char],
    ) -> (res: Vec<char>)
        requires
            index < 24,
            letter == unit_letter(context.temperature_unit@),
            punit@ == context.precipitation_unit@,
        ensures
            res@ == grid_cell(*context, index as int, width as nat),
    {
        if index < context.hourly.len() {
            let cell = Self::hour_cell_chars(&context.hourly[index], letter, punit);
            text::pad_right_chars(cell.as_slice(), width)
        } else {
            let mut blank: Vec<char> = Vec::new();
            text::push_repeat(&mut blank, ' ', width);
            assert(blank@ =~= text::spaces(width as nat));
            blank
        }
    }

    fn time_chars(t: &str) -> (res: Vec<char>)
        ensures
            res@ == time_text(t@),
    {
        let tc = text::chars_of(t);
        let am = text::chars_of("am");
        let pm = text::chars_of("pm");
        if text::contains_chars(tc.as_slice(), am.as_slice()) || text::contains_chars(
            tc.as_slice(),
            pm.as_slice(),
        ) {
            let pat = text::chars_of(":00");
            let empty: Vec<char> = Vec::new();
            proof {
                reveal_strlit(":00");
            }
            let short = text::replace_chars(tc.as_slice(), pat.as_slice(), empty.as_slice());
            assert(empty@ =~= Seq::<char>::empty());
            if short.len() > 0 && short[0] == '0' {
                let mut out: Vec<char> = Vec::new();
                out.push(' ');
                let mut i: usize = 1;
                while i < short.len()
                    invariant
                        1 <= i <= short@.len(),
                        out@ == seq![' '] + short@.subrange(1, i as int),
                    decreases short@.len() - i,
                {
                    out.push(short[i]);
                    i = i + 1;
                    assert(out@ =~= seq![' '] + short@.subrange(1, i as int));
                }
                assert(short@.subrange(1, short@.len() as int) =~= short@.drop_first());
                out
            } else {
                text::pad_left_chars(short.as_slice(), 4)
            }
        } else {
            text::pad_left_chars(tc.as_slice(), 5)
        }
    }

    fn hour_cell_chars(h: &HourlyForecast, letter: char, punit: &[char]) -> (res: Vec<char>)
        ensures
            res@ == hour_cell(*h, letter, punit@),
    {
        let mut out = Self::time_chars(h.time.as_str());
        out.push(' ');
        text::push_str(&mut out, h.weather_icon.as_str());
        out.push(' ');
        let temp = text::chars_of(h.temperature.as_str());
        let temp_padded = text::pad_left_chars(temp.as_slice(), 2);
        text::push_all(&mut out, temp_padded.as_slice());
        out.push('\u{b0}');
        out.push(letter);
        out.push(' ');
        let precip = text::chars_of(h.precipitation.as_str());
        let precip_padded = text::pad_left_chars(precip.as_slice(), 4);
        text::push_all(&mut out, precip_padded.as_slice());
        text::push_all(&mut out, punit);
        out.push(' ');
        let prob = text::chars_of(h.precipitation_probability.as_str());
        let prob_padded = text::pad_left_chars(prob.as_slice(), 3);
        text::push_all(&mut out, prob_padded.as_slice());
        out.push('%');
        proof {
            reveal_strlit(" ");
            reveal_strlit("%");
        }
        assert(out@ =~= hour_cell(*h, letter, punit@));
        out
    }

    /// The daily forecast: a line per day (`Today`, `Tomorrow`, then the
    /// date; the chance of precipitation on days with precipitation), then an
    /// empty line.
    pub fn format_forecast_text(context: &Context) -> (res: String)
        ensures
            res@ == forecast_text(*context),
    {
        let n = context.forecast.len();
        let mut out: Vec<char> = Vec::new();
        let mut i: usize = 0;
        while i < n
            invariant
                n == context.forecast@.len(),
                i <= n,
                out@ == day_lines(context.forecast@, i as nat, context.temperature_unit@),
            decreases n - i,
        {
            let line = Self::day_line_chars(&context.forecast[i], i, context.temperature_unit.as_str());
            text::push_all(&mut out, line.as_slice());
            i = i + 1;
        }
        out.push('\n');
        proof {
            reveal_strlit("\n");
        }
        assert(out@ =~= forecast_text(*context));
        text::string_of(&out)
    }

    fn day_line_chars(d: &DailyForecast, index: usize, unit: &str) -> (res: Vec<char>)
        ensures
            res@ == day_line(*d, index as int, unit@),
    {
        let date = if index == 0 {
            text::chars_of("Today")
        } else if index == 1 {
            text::chars_of("Tomorrow")
        } else {
            text::chars_of(d.date.as_str())
        };
        let mut description = text::chars_of(d.weather_description.as_str());
        if has_precipitation(d.weather_code) {
            text::push_str(&mut description, " (");
            text::push_str(&mut description, d.precipitation_chance.as_str());
            text::push_str(&mut description, "%)");
        }
        let mut out = text::pad_right_chars(date.as_slice(), 10);
        text::push_str(&mut out, " ");
        text::push_str(&mut out, d.weather_icon.as_str());
        text::push_str(&mut out, "  ");
        let low = text::chars_of(d.temperature_low.as_str());
        let low_padded = text::pad_left_chars(low.as_slice(), 2);
        text::push_all(&mut out, low_padded.as_slice());
        text::push_str(&mut out, " \u{2192} ");
        let high = text::chars_of(d.temperature_high.as_str());
        let high_padded = text::pad_right_chars(high.as_slice(), 2);
        text::push_all(&mut out, high_padded.as_slice());
        text::push_str(&mut out, unit);
        text::push_str(&mut out, "  ");
        text::push_all(&mut out, description.as_slice());
        text::push_str(&mut out, "\n");
        assert(out@ =~= day_line(*d, index as int, unit@));
        out
    }

    /// The message shown while weather data loads.
    pub fn format_loading_message() -> (res: String)
        ensures
            res@ == "Loading weather data..."@,
    {
        "Loading weather data...".to_owned()
    }

    /// The message asking the user to wait.
    pub fn format_wait_message() -> (res: String)
        ensures
            res@ == "Please wait..."@,
    {
        "Please wait...".to_owned()
    }

    /// The message shown while the units are switched.
    pub fn format_units_switching_message() -> (res: String)
        ensures
            res@ == "Switching units..."@,
    {
        "Switching units...".to_owned()
    }
}

} // verus!
