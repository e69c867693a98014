use xpt_reader::text::render_text;

fn cells(v: &[&str]) -> Vec<Vec<u8>> {
    v.iter().map(|s| s.as_bytes().to_vec()).collect()
}

fn split_line(line: &str) -> Vec<String> {
    let mut out = Vec::new();
    let mut cur = String::new();
    let mut chars = line.chars().peekable();
    let mut quoted = false;
    while let Some(c) = chars.next() {
        if quoted {
            if c == '"' {
                if chars.peek() == Some(&'"') {
                    cur.push('"');
                    chars.next();
                } else {
                    quoted = false;
                }
            } else {
                cur.push(c);
            }
        } else if c == '"' {
            quoted = true;
        } else if c == ',' {
            out.push(std::mem::take(&mut cur));
        } else {
            cur.push(c);
        }
    }
    out.push(cur);
    out
}

#[test]
fn plain_table() {
    let (text, skipped) = render_text(&cells(&["A", "B"]), &vec![cells(&["1", "x"]), cells(&["", "y"])]);
    assert_eq!(String::from_utf8(text).unwrap(), "A,B\n1,x\n,y\n");
    assert_eq!(skipped, 0);
}

#[test]
fn special_value_is_quoted_and_reads_back() {
    let value = "a,b \"c\"\nd";
    let (text, skipped) = render_text(&cells(&["ID", "NOTE"]), &vec![cells(&["1", value])]);
    let text = String::from_utf8(text).unwrap();
    assert_eq!(text, "ID,NOTE\n1,\"a,b \"\"c\"\"\nd\"\n");
    assert_eq!(skipped, 0);
    let body = &text["ID,NOTE\n".len()..text.len() - 1];
    assert_eq!(split_line(body), vec!["1".to_string(), value.to_string()]);
}

#[test]
fn mismatched_rows_are_skipped_and_counted() {
    let rows = vec![cells(&["1", "2"]), cells(&["3"]), cells(&["4", "5"]), cells(&["6"]), cells(&["7", "8", "9"])];
    let (text, skipped) = render_text(&cells(&["A", "B"]), &rows);
    assert_eq!(String::from_utf8(text).unwrap(), "A,B\n1,2\n4,5\n");
    assert_eq!(skipped, 3);
}

#[test]
fn names_are_not_quoted() {
    let (text, _) = render_text(&cells(&["A,1"]), &vec![cells(&["x,y"])]);
    assert_eq!(String::from_utf8(text).unwrap(), "A,1\n\"x,y\"\n");
}

#[test]
fn empty_table_has_header_only() {
    let (text, skipped) = render_text(&cells(&["A"]), &vec![]);
    assert_eq!(text, b"A\n".to_vec());
    assert_eq!(skipped, 0);
}
