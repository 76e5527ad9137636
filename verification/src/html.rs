//! Rendering of the configuration page fragments.
//!
//! Two pure string builders: the fixed HTML frame around any page body, and
//! the 24 `<option>` elements of the hour selector, marking as `selected`
//! exactly the hours of a schedule. Serving the page is not this library's
//! business; these functions only decide the text.

use vstd::prelude::*;
use vstd::string::StringExecFns;

use crate::light::LightHours;

verus! {

/// The decimal text of an hour of day, 0–23.
pub open spec fn spec_hour_text(h: u8) -> Seq<char> {
    if h == 0 {
        "0"@
    } else if h == 1 {
        "1"@
    } else if h == 2 {
        "2"@
    } else if h == 3 {
        "3"@
    } else if h == 4 {
        "4"@
    } else if h == 5 {
        "5"@
    } else if h == 6 {
        "6"@
    } else if h == 7 {
        "7"@
    } else if h == 8 {
        "8"@
    } else if h == 9 {
        "9"@
    } else if h == 10 {
        "10"@
    } else if h == 11 {
        "11"@
    } else if h == 12 {
        "12"@
    } else if h == 13 {
        "13"@
    } else if h == 14 {
        "14"@
    } else if h == 15 {
        "15"@
    } else if h == 16 {
        "16"@
    } else if h == 17 {
        "17"@
    } else if h == 18 {
        "18"@
    } else if h == 19 {
        "19"@
    } else if h == 20 {
        "20"@
    } else if h == 21 {
        "21"@
    } else if h == 22 {
        "22"@
    } else {
        "23"@
    }
}

/// The decimal text of an hour of day, as a borrowed slice.
fn hour_text(h: u8) -> (r: &'static str)
    requires
        h < 24,
    ensures
        r@ == spec_hour_text(h),
{
    if h == 0 {
        "0"
    } else if h == 1 {
        "1"
    } else if h == 2 {
        "2"
    } else if h == 3 {
        "3"
    } else if h == 4 {
        "4"
    } else if h == 5 {
        "5"
    } else if h == 6 {
        "6"
    } else if h == 7 {
        "7"
    } else if h == 8 {
        "8"
    } else if h == 9 {
        "9"
    } else if h == 10 {
        "10"
    } else if h == 11 {
        "11"
    } else if h == 12 {
        "12"
    } else if h == 13 {
        "13"
    } else if h == 14 {
        "14"
    } else if h == 15 {
        "15"
    } else if h == 16 {
        "16"
    } else if h == 17 {
        "17"
    } else if h == 18 {
        "18"
    } else if h == 19 {
        "19"
    } else if h == 20 {
        "20"
    } else if h == 21 {
        "21"
    } else if h == 22 {
        "22"
    } else {
        "23"
    }
}

/// One `<option>` element of the hour selector: value and text are the hour,
/// with the `selected` marker iff the schedule holds that hour.
pub open spec fn spec_option_entry(h: u8, selected: bool) -> Seq<char> {
    "<option value=\""@ + spec_hour_text(h) + "\" "@ + (if selected {
        "selected"@
    } else {
        ""@
    }) + ">"@ + spec_hour_text(h) + "</option>"@
}

/// The selector entries for hours `0 .. n`, concatenated in order.
pub open spec fn spec_options_upto(hours: Seq<u8>, n: int) -> Seq<char>
    decreases n,
{
    if n <= 0 {
        Seq::empty()
    } else {
        spec_options_upto(hours, n - 1) + spec_option_entry(
            (n - 1) as u8,
            hours.contains((n - 1) as u8),
        )
    }
}

impl LightHours {
    /// Renders the 24 hour-selector `<option>` elements in order, marking as
    /// `selected` exactly the hours of this schedule.
    pub fn to_html_options(&self) -> (r: String)
        ensures
            r@ == spec_options_upto(self@, 24),
    {
        let mut out = String::new();
        let mut h: u8 = 0;
        while h < 24
            invariant
                h <= 24,
                out@ == spec_options_upto(self@, h as int),
            decreases 24 - h,
        {
            let selected = if self.active(h) {
                "selected"
            } else {
                ""
            };
            out.append("<option value=\"");
            out.append(hour_text(h));
            out.append("\" ");
            out.append(selected);
            out.append(">");
            out.append(hour_text(h));
            out.append("</option>");
            proof {
                assert(out@ =~= spec_options_upto(self@, h as int) + spec_option_entry(
                    h,
                    self@.contains(h),
                ));
                assert(spec_options_upto(self@, h + 1) == spec_options_upto(self@, h as int)
                    + spec_option_entry(h, self@.contains(h)));
            }
            h += 1;
        }
        out
    }
}

/// The fixed HTML frame of the configuration page around any body content.
pub open spec fn spec_template(content: Seq<char>) -> Seq<char> {
    "\n<!DOCTYPE html>\n<html>\n    <head>\n        <meta charset=\"utf-8\">\n        <title>Web Server</title>\n    </head>\n    <body>\n        "@
        + content + "\n    </body>\n</html>\n"@
}

/// Wraps `content` in the fixed HTML frame of the configuration page.
pub fn template(content: &str) -> (r: String)
    ensures
        r@ == spec_template(content@),
{
    let mut out = String::from_str(
        "\n<!DOCTYPE html>\n<html>\n    <head>\n        <meta charset=\"utf-8\">\n        <title>Web Server</title>\n    </head>\n    <body>\n        ",
    );
    out.append(content);
    out.append("\n    </body>\n</html>\n");
    out
}

} // verus!
