use hydro::html::template;
use hydro::light::LightHours;

fn expected_options(hours: &[u8]) -> String {
    (0u8..=23u8)
        .map(|h| {
            let selected = if hours.contains(&h) { "selected" } else { "" };
            format!("<option value=\"{h}\" {selected}>{h}</option>")
        })
        .collect::<Vec<String>>()
        .join("")
}

#[test]
fn options_mark_selected_hours() {
    let hours = LightHours(vec![5]);
    assert_eq!(hours.to_html_options(), expected_options(&[5]));
}

#[test]
fn options_for_empty_schedule_select_nothing() {
    let hours = LightHours::default();
    let rendered = hours.to_html_options();
    assert_eq!(rendered, expected_options(&[]));
    assert!(!rendered.contains("selected"));
}

#[test]
fn options_for_ranges() {
    let hours = LightHours::from_ranges(&vec![(0, 11), (20, 23)]);
    let expected: Vec<u8> = (0u8..=11).chain(20u8..=23).collect();
    assert_eq!(hours.to_html_options(), expected_options(&expected));
}

#[test]
fn single_option_shape() {
    let hours = LightHours(vec![5]);
    let rendered = hours.to_html_options();
    assert!(rendered.contains("<option value=\"5\" selected>5</option>"));
    assert!(rendered.contains("<option value=\"4\" >4</option>"));
}

#[test]
fn template_wraps_content_in_page_frame() {
    let page = template("hello");
    let expected = "\n<!DOCTYPE html>\n<html>\n    <head>\n        <meta charset=\"utf-8\">\n        <title>Web Server</title>\n    </head>\n    <body>\n        hello\n    </body>\n</html>\n";
    assert_eq!(page, expected);
}

#[test]
fn template_of_empty_content() {
    let page = template("");
    assert!(page.starts_with("\n<!DOCTYPE html>"));
    assert!(page.ends_with("</html>\n"));
    assert!(page.contains("<body>\n        \n    </body>"));
}
