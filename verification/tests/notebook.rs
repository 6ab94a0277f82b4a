use marrow::ansi::ansi_to_html;
use marrow::ansi::strip_ansi_codes;
use marrow::notebook::CellOutput;
use marrow::notebook::Notebook;
use marrow::notebook::NotebookCell;
use marrow::notebook::StringOrArray;
use marrow::notebook::notebook_to_html;
use marrow::notebook::notebook_to_markdown;
use marrow::notebook::strip_pre_wrapper;

fn plain_output(kind: &str, text: &str) -> CellOutput {
    CellOutput {
        output_type: kind.to_string(),
        text: Some(StringOrArray::One(text.to_string())),
        data: None,
        ename: None,
        evalue: None,
        traceback: None,
    }
}

fn md_cell(src: &str) -> NotebookCell {
    NotebookCell {
        cell_type: "markdown".to_string(),
        source: StringOrArray::One(src.to_string()),
        outputs: Vec::new(),
        execution_count: None,
    }
}

fn code_cell(src: &str, count: Option<i64>, outputs: Vec<CellOutput>) -> NotebookCell {
    NotebookCell {
        cell_type: "code".to_string(),
        source: StringOrArray::One(src.to_string()),
        outputs,
        execution_count: count,
    }
}

#[test]
fn string_or_array_normalises() {
    let one = StringOrArray::One("ab".to_string());
    assert_eq!(one.to_string(), "ab");
    let many = StringOrArray::Many(vec!["a\n".to_string(), "b".to_string()]);
    assert_eq!(many.to_string(), "a\nb");
    let empty = StringOrArray::Many(Vec::new());
    assert_eq!(empty.to_string(), "");
}

#[test]
fn notebook_to_markdown_wraps_cells() {
    let nb = Notebook {
        cells: vec![
            md_cell("# Hi"),
            code_cell("print(1)", Some(2), vec![plain_output("stream", "1\n")]),
        ],
    };
    let md = notebook_to_markdown(&nb);
    assert_eq!(
        md,
        "# Hi\n\n\n---\n\n```python\nprint(1)\n```\n\n```\n1\n```\n\n"
    );
}

#[test]
fn notebook_to_markdown_strips_ansi_in_tracebacks() {
    let nb = Notebook {
        cells: vec![NotebookCell {
            cell_type: "code".to_string(),
            source: StringOrArray::One("x".to_string()),
            outputs: vec![CellOutput {
                output_type: "error".to_string(),
                text: None,
                data: None,
                ename: Some("ValueError".to_string()),
                evalue: Some("bad".to_string()),
                traceback: Some(vec!["\u{1b}[31mline\u{1b}[0m".to_string()]),
            }],
            execution_count: None,
        }],
    };
    let md = notebook_to_markdown(&nb);
    assert!(md.contains("ValueError: bad\n"));
    assert!(md.contains("\nline\n"));
    assert!(!md.contains('\u{1b}'));
}

#[test]
fn notebook_to_markdown_prefers_images() {
    let nb = Notebook {
        cells: vec![NotebookCell {
            cell_type: "code".to_string(),
            source: StringOrArray::One("plot()".to_string()),
            outputs: vec![CellOutput {
                output_type: "execute_result".to_string(),
                text: None,
                data: Some(vec![
                    ("text/plain".to_string(), StringOrArray::One("<Figure>".to_string())),
                    ("image/png".to_string(), StringOrArray::One("AA\nBB".to_string())),
                ]),
                ename: None,
                evalue: None,
                traceback: None,
            }],
            execution_count: Some(1),
        }],
    };
    let md = notebook_to_markdown(&nb);
    assert!(md.contains("![output](data:image/png;base64,AABB)"));
    assert!(!md.contains("<Figure>"));
}

#[test]
fn notebook_html_renders_each_cell_kind() {
    let nb = Notebook {
        cells: vec![
            md_cell("# Head"),
            code_cell("1+1", Some(3), vec![plain_output("stream", "2\n")]),
            NotebookCell {
                cell_type: "raw".to_string(),
                source: StringOrArray::One("<raw> & stuff".to_string()),
                outputs: Vec::new(),
                execution_count: None,
            },
        ],
    };
    let (html, toc, map) = notebook_to_html(&nb, None);
    assert!(html.starts_with("<div class=\"notebook\">\n"));
    assert!(html.contains("nb-markdown-cell\" data-cell-idx=\"0\""));
    assert!(html.contains("<h1 id=\"head\" data-lines=\"1-1\">Head</h1>"));
    assert!(html.contains("In [3]:"));
    assert!(html.contains("<code class=\"language-python\">1+1</code>"));
    assert!(html.contains("nb-output-stream"));
    assert!(html.contains("nb-raw-cell\" data-cell-idx=\"2\""));
    assert!(html.contains("&lt;raw&gt; &amp; stuff"));
    assert_eq!(toc, vec![(1usize, "Head".to_string())]);
    assert_eq!(map.entries.len(), 0);
}

#[test]
fn unexecuted_cell_shows_blank_counter() {
    let nb = Notebook { cells: vec![code_cell("x", None, Vec::new())] };
    let (html, _, _) = notebook_to_html(&nb, None);
    assert!(html.contains("In [ ]:"));
}

#[test]
fn execute_result_with_image_and_text_shows_only_the_image() {
    let nb = Notebook {
        cells: vec![NotebookCell {
            cell_type: "code".to_string(),
            source: StringOrArray::One("plot()".to_string()),
            outputs: vec![CellOutput {
                output_type: "execute_result".to_string(),
                text: None,
                data: Some(vec![
                    ("text/plain".to_string(), StringOrArray::One("<Figure 1>".to_string())),
                    ("image/png".to_string(), StringOrArray::One("iVBOR\nw0KG".to_string())),
                ]),
                ename: None,
                evalue: None,
                traceback: None,
            }],
            execution_count: Some(5),
        }],
    };
    let (html, _, _) = notebook_to_html(&nb, None);
    assert!(html.contains("<img src=\"data:image/png;base64,iVBORw0KG\""));
    assert!(!html.contains("Figure 1"));
    assert!(!html.contains("nb-output-text"));
}

#[test]
fn execute_result_text_carries_out_prompt() {
    let nb = Notebook {
        cells: vec![NotebookCell {
            cell_type: "code".to_string(),
            source: StringOrArray::One("2+2".to_string()),
            outputs: vec![CellOutput {
                output_type: "execute_result".to_string(),
                text: None,
                data: Some(vec![(
                    "text/plain".to_string(),
                    StringOrArray::One("4".to_string()),
                )]),
                ename: None,
                evalue: None,
                traceback: None,
            }],
            execution_count: Some(7),
        }],
    };
    let (html, _, _) = notebook_to_html(&nb, None);
    assert!(html.contains("Out[7]:"));
    assert!(html.contains("nb-output-text"));
}

#[test]
fn display_data_html_payload_is_unwrapped() {
    let nb = Notebook {
        cells: vec![NotebookCell {
            cell_type: "code".to_string(),
            source: StringOrArray::One("df".to_string()),
            outputs: vec![CellOutput {
                output_type: "display_data".to_string(),
                text: None,
                data: Some(vec![(
                    "text/html".to_string(),
                    StringOrArray::One("<pre style=\"x\">inner\n</pre>".to_string()),
                )]),
                ename: None,
                evalue: None,
                traceback: None,
            }],
            execution_count: None,
        }],
    };
    let (html, _, _) = notebook_to_html(&nb, None);
    assert!(html.contains("nb-output-html"));
    assert!(html.contains("<div class=\"nb-output-content\">inner</div>"));
    // display_data gets no Out prompt
    assert!(!html.contains("Out["));
}

#[test]
fn error_output_renders_name_and_coloured_traceback() {
    let nb = Notebook {
        cells: vec![NotebookCell {
            cell_type: "code".to_string(),
            source: StringOrArray::One("boom()".to_string()),
            outputs: vec![CellOutput {
                output_type: "error".to_string(),
                text: None,
                data: None,
                ename: Some("ZeroDivisionError".to_string()),
                evalue: Some("division by zero".to_string()),
                traceback: Some(vec!["\u{1b}[31mTraceback\u{1b}[0m".to_string()]),
            }],
            execution_count: Some(1),
        }],
    };
    let (html, _, _) = notebook_to_html(&nb, None);
    assert!(html.contains(
        "<span style=\"color:#e06c75;font-weight:bold\">ZeroDivisionError</span>: division by zero"
    ));
    assert!(html.contains("<span style=\"color:#e06c75\">Traceback</span>"));
}

#[test]
fn strip_pre_wrapper_cases() {
    assert_eq!(strip_pre_wrapper("<pre style=\"x\">hello\n</pre>"), "hello");
    assert_eq!(strip_pre_wrapper("  <pre>inner</pre>  "), "inner");
    assert_eq!(strip_pre_wrapper("plain text"), "plain text");
    assert_eq!(strip_pre_wrapper("<div>keep</div>"), "<div>keep</div>");
}

#[test]
fn ansi_translation_colours_and_escapes() {
    assert_eq!(
        ansi_to_html("\u{1b}[31mERROR\u{1b}[0m: bad"),
        "<span style=\"color:#e06c75\">ERROR</span>: bad"
    );
    assert_eq!(
        ansi_to_html("\u{1b}[32m<ok>\u{1b}[0m & done"),
        "<span style=\"color:#98c379\">&lt;ok&gt;</span> &amp; done"
    );
    assert_eq!(ansi_to_html("\u{1b}[38;5;196mhot\u{1b}[0m"), "<span style=\"color:#e06c75\">hot</span>");
    // an unclosed span is closed at the end of the input
    assert_eq!(ansi_to_html("\u{1b}[34mblue"), "<span style=\"color:#61afef\">blue</span>");
    // unknown codes close without opening
    assert_eq!(ansi_to_html("\u{1b}[95mx"), "x");
}

#[test]
fn ansi_stripping_removes_sequences() {
    assert_eq!(strip_ansi_codes("\u{1b}[31mRED\u{1b}[0m rest"), "RED rest");
    assert_eq!(strip_ansi_codes("no codes"), "no codes");
    assert_eq!(strip_ansi_codes("\u{1b}"), "");
}

#[test]
fn array_sources_concatenate_through_rendering() {
    let nb = Notebook {
        cells: vec![NotebookCell {
            cell_type: "markdown".to_string(),
            source: StringOrArray::Many(vec!["# Sp".to_string(), "lit".to_string()]),
            outputs: Vec::new(),
            execution_count: None,
        }],
    };
    let (html, toc, _) = notebook_to_html(&nb, None);
    assert!(html.contains("<h1 id=\"split\" data-lines=\"1-1\">Split</h1>"));
    assert_eq!(toc, vec![(1usize, "Split".to_string())]);
}

#[test]
fn notebook_toc_drops_empty_headings() {
    // the notebook heading pass drops headings whose plain text came out
    // empty, exactly as the standalone extractor does
    let nb = Notebook {
        cells: vec![NotebookCell {
            cell_type: "markdown".to_string(),
            source: StringOrArray::One("#\n\n# Real".to_string()),
            outputs: Vec::new(),
            execution_count: None,
        }],
    };
    let (_, toc, _) = notebook_to_html(&nb, None);
    assert_eq!(toc, vec![(1usize, "Real".to_string())]);
}

#[test]
fn jpeg_is_used_when_png_is_absent() {
    let nb = Notebook {
        cells: vec![NotebookCell {
            cell_type: "code".to_string(),
            source: StringOrArray::One("x".to_string()),
            outputs: vec![CellOutput {
                output_type: "display_data".to_string(),
                text: None,
                data: Some(vec![
                    ("image/jpeg".to_string(), StringOrArray::One("QUJD".to_string())),
                    ("text/plain".to_string(), StringOrArray::One("alt".to_string())),
                ]),
                ename: None,
                evalue: None,
                traceback: None,
            }],
            execution_count: None,
        }],
    };
    let (html, _, _) = notebook_to_html(&nb, None);
    assert!(html.contains("data:image/jpeg;base64,QUJD"));
    assert!(!html.contains("nb-output-text"));
}

#[test]
fn notebook_markdown_cells_resolve_images_from_store() {
    let mut store = marrow::image::ImageStore::new();
    store.insert("plot.png".to_string(), vec![1, 2, 3]);
    let nb = Notebook {
        cells: vec![md_cell("![p](plot.png)")],
    };
    let (html, _, _) = notebook_to_html(&nb, Some(&store));
    assert!(html.contains("data:image/png;base64,AQID"));
}

#[test]
fn notebook_to_markdown_fences_raw_cells() {
    let nb = Notebook {
        cells: vec![NotebookCell {
            cell_type: "raw".to_string(),
            source: StringOrArray::One("literal".to_string()),
            outputs: Vec::new(),
            execution_count: None,
        }],
    };
    assert_eq!(notebook_to_markdown(&nb), "```\nliteral\n```\n\n");
}
