use marrow::notebook::CellOutput;
use marrow::notebook::Notebook;
use marrow::notebook::NotebookCell;
use marrow::notebook::StringOrArray;
use marrow::notebook::notebook_to_html;
use marrow::truncate::RevealAmount;
use marrow::truncate::handle_output_request;
use marrow::truncate::parse_output_request;

fn stream_cell(line_count: usize) -> Notebook {
    let mut text = String::new();
    for i in 1..=line_count {
        text.push_str(&format!("line{}\n", i));
    }
    Notebook {
        cells: vec![NotebookCell {
            cell_type: "code".to_string(),
            source: StringOrArray::One("spam()".to_string()),
            outputs: vec![CellOutput {
                output_type: "stream".to_string(),
                text: Some(StringOrArray::One(text)),
                data: None,
                ename: None,
                evalue: None,
                traceback: None,
            }],
            execution_count: Some(1),
        }],
    }
}

#[test]
fn three_hundred_lines_trigger_truncation() {
    let (html, _, map) = notebook_to_html(&stream_cell(300), None);
    // head shows lines 1 through 200
    assert!(html.contains(">line1\n"));
    assert!(html.contains("line200</div>"));
    assert!(!html.contains("line201\n"));
    // tail shows lines 291 through 300
    assert!(html.contains("line291"));
    assert!(html.contains("line300"));
    assert!(!html.contains("line290"));
    // the gap reports 90 hidden lines
    assert!(html.contains("90 lines hidden"));
    assert_eq!(map.entries.len(), 1);
    assert_eq!(map.entries[0].0, 0);
    assert_eq!(map.entries[0].1, 0);
    assert_eq!(map.entries[0].2.total_lines, 300);
    assert_eq!(map.entries[0].2.shown_lines, 200);
}

#[test]
fn two_hundred_ninety_lines_render_in_full() {
    let (html, _, map) = notebook_to_html(&stream_cell(290), None);
    assert!(map.entries.is_empty());
    assert!(html.contains("line1\n"));
    assert!(html.contains("line290"));
    assert!(!html.contains("lines hidden"));
}

#[test]
fn numeric_reveal_serves_the_next_lines() {
    let (_, _, mut map) = notebook_to_html(&stream_cell(300), None);
    let (cell, output, lines, hidden, complete) =
        handle_output_request(&mut map, "get_output_lines:0:0:50").unwrap();
    assert_eq!((cell, output), (0, 0));
    let got: Vec<&str> = lines.split('\n').collect();
    assert_eq!(got.len(), 50);
    assert_eq!(got[0], "line201");
    assert_eq!(got[49], "line250");
    assert_eq!(hidden, 40);
    assert!(!complete);
}

#[test]
fn numeric_reveals_advance_until_nothing_is_hidden() {
    let (_, _, mut map) = notebook_to_html(&stream_cell(300), None);
    let (.., hidden, complete) = handle_output_request(&mut map, "get_output_lines:0:0:50").unwrap();
    assert_eq!((hidden, complete), (40, false));
    let (.., hidden, complete) = handle_output_request(&mut map, "get_output_lines:0:0:50").unwrap();
    assert_eq!((hidden, complete), (0, true));
    // further reveals are no-ops
    let (_, _, lines, hidden, complete) =
        handle_output_request(&mut map, "get_output_lines:0:0:50").unwrap();
    assert_eq!(lines, "");
    assert_eq!((hidden, complete), (0, true));
}

#[test]
fn reveal_all_twice_is_idempotent() {
    let (_, _, mut map) = notebook_to_html(&stream_cell(300), None);
    let (_, _, lines, hidden, complete) =
        handle_output_request(&mut map, "get_output_lines:0:0:all").unwrap();
    assert_eq!(lines.split('\n').count(), 90);
    assert!(lines.starts_with("line201"));
    assert!(lines.ends_with("line290"));
    assert_eq!((hidden, complete), (0, true));
    let (_, _, lines, hidden, complete) =
        handle_output_request(&mut map, "get_output_lines:0:0:all").unwrap();
    assert_eq!(lines, "");
    assert_eq!((hidden, complete), (0, true));
}

#[test]
fn malformed_amount_defaults_to_fifty() {
    let (_, _, mut map) = notebook_to_html(&stream_cell(300), None);
    let (_, _, lines, hidden, _) =
        handle_output_request(&mut map, "get_output_lines:0:0:bogus").unwrap();
    assert_eq!(lines.split('\n').count(), 50);
    assert_eq!(hidden, 40);
}

#[test]
fn unknown_keys_are_ignored() {
    let (_, _, mut map) = notebook_to_html(&stream_cell(300), None);
    assert!(handle_output_request(&mut map, "get_output_lines:3:7:50").is_none());
    // and the retained state is untouched
    assert_eq!(map.entries[0].2.shown_lines, 200);
}

#[test]
fn non_reveal_messages_are_ignored() {
    let (_, _, mut map) = notebook_to_html(&stream_cell(300), None);
    assert!(handle_output_request(&mut map, "resize:800:600").is_none());
    assert!(handle_output_request(&mut map, "get_output_lines:0:0").is_none());
    assert!(handle_output_request(&mut map, "get_output_lines:0:0:1:2").is_none());
}

#[test]
fn parse_request_reads_the_wire_form() {
    assert_eq!(
        parse_output_request("get_output_lines:2:5:all"),
        Some((2, 5, "all".to_string()))
    );
    assert_eq!(
        parse_output_request("get_output_lines:x:5:20"),
        Some((0, 5, "20".to_string()))
    );
    assert_eq!(parse_output_request("close_window"), None);
}

#[test]
fn error_outputs_truncate_too() {
    let mut tb = Vec::new();
    for i in 1..=400 {
        tb.push(format!("frame{}", i));
    }
    let nb = Notebook {
        cells: vec![NotebookCell {
            cell_type: "code".to_string(),
            source: StringOrArray::One("x".to_string()),
            outputs: vec![CellOutput {
                output_type: "error".to_string(),
                text: None,
                data: None,
                ename: Some("E".to_string()),
                evalue: None,
                traceback: Some(tb),
            }],
            execution_count: None,
        }],
    };
    let (html, _, map) = notebook_to_html(&nb, None);
    assert_eq!(map.entries.len(), 1);
    // 1 name line + 400 traceback lines, head 200, tail 10
    assert_eq!(map.entries[0].2.total_lines, 401);
    assert!(html.contains("191 lines hidden"));
}

#[test]
fn direct_reveal_amounts_behave() {
    let (_, _, mut map) = notebook_to_html(&stream_cell(300), None);
    let r = map.serve(0, 0, &RevealAmount::Count(1)).unwrap();
    assert_eq!(r.0, "line201");
    assert_eq!(r.1, 89);
    assert!(!r.2);
    let r = map.serve(0, 0, &RevealAmount::All).unwrap();
    assert!(r.0.starts_with("line202"));
    assert_eq!(r.1, 0);
    assert!(r.2);
}

#[test]
fn amount_with_plus_sign_parses() {
    let (_, _, mut map) = notebook_to_html(&stream_cell(300), None);
    let (_, _, lines, hidden, _) =
        handle_output_request(&mut map, "get_output_lines:0:0:+30").unwrap();
    assert_eq!(lines.split('\n').count(), 30);
    assert_eq!(hidden, 60);
}

#[test]
fn oversized_reveal_stops_at_the_tail() {
    let (_, _, mut map) = notebook_to_html(&stream_cell(300), None);
    let (_, _, lines, hidden, complete) =
        handle_output_request(&mut map, "get_output_lines:0:0:100000").unwrap();
    assert_eq!(lines.split('\n').count(), 90);
    assert_eq!((hidden, complete), (0, true));
}
