use csv_splitter::{generate_output_file_path, output_file_name, split_lines, Emit, Error, OutputFile, Splitter};

fn lines(v: &[&str]) -> Vec<String> {
    v.iter().map(|s| s.to_string()).collect()
}

fn app_message(r: Result<Vec<OutputFile>, Error>) -> String {
    match r {
        Err(Error::App(m)) => m,
        Err(Error::Io(m)) => panic!("unexpected io error {}", m),
        Ok(_) => panic!("expected an error"),
    }
}

#[test]
fn five_lines_in_twos() {
    let src = lines(&["1", "2", "3", "4", "5"]);
    let fs = split_lines("a.csv", &src, 2, 0).unwrap();
    assert_eq!(fs.len(), 3);
    assert_eq!(fs[0].path, "a-1.csv");
    assert_eq!(fs[1].path, "a-2.csv");
    assert_eq!(fs[2].path, "a-3.csv");
    assert_eq!(fs[0].lines, lines(&["1", "2"]));
    assert_eq!(fs[1].lines, lines(&["3", "4"]));
    assert_eq!(fs[2].lines, lines(&["5"]));
}

#[test]
fn header_repeated_in_every_file() {
    let src = lines(&["h", "1", "2", "3", "4", "5"]);
    let fs = split_lines("b.csv", &src, 2, 1).unwrap();
    assert_eq!(fs.len(), 3);
    assert_eq!(fs[0].path, "b-1.csv");
    assert_eq!(fs[1].path, "b-2.csv");
    assert_eq!(fs[2].path, "b-3.csv");
    assert_eq!(fs[0].lines, lines(&["h", "1", "2"]));
    assert_eq!(fs[1].lines, lines(&["h", "3", "4"]));
    assert_eq!(fs[2].lines, lines(&["h", "5"]));
}

#[test]
fn empty_source_gives_one_empty_file() {
    let fs = split_lines("c.csv", &Vec::new(), 1, 0).unwrap();
    assert_eq!(fs.len(), 1);
    assert_eq!(fs[0].path, "c-1.csv");
    assert!(fs[0].lines.is_empty());
}

#[test]
fn zero_lines_rejected() {
    let src = lines(&["1", "2"]);
    assert_eq!(app_message(split_lines("a.csv", &src, 0, 0)), "num lines cannot be 0");
    assert!(matches!(Splitter::new("a.csv", 0, 1), Err(Error::App(_))));
}

#[test]
fn zero_lines_rejected_before_path_check() {
    assert_eq!(app_message(split_lines("d", &Vec::new(), 0, 0)), "num lines cannot be 0");
}

#[test]
fn source_without_extension_rejected() {
    let src = lines(&["1", "2"]);
    assert_eq!(
        app_message(split_lines("d", &src, 2, 0)),
        "source file name needs a stem and an extension"
    );
    assert!(matches!(Splitter::new("dir/d", 1, 0), Err(Error::App(_))));
}

#[test]
fn exact_multiple_has_no_trailing_file() {
    let src = lines(&["1", "2", "3", "4"]);
    let fs = split_lines("e.csv", &src, 2, 0).unwrap();
    assert_eq!(fs.len(), 2);
    assert_eq!(fs[1].lines, lines(&["3", "4"]));
}

#[test]
fn more_header_lines_than_source() {
    let src = lines(&["h1", "h2"]);
    let fs = split_lines("f.csv", &src, 3, 5).unwrap();
    assert_eq!(fs.len(), 1);
    assert_eq!(fs[0].path, "f-1.csv");
    assert_eq!(fs[0].lines, lines(&["h1", "h2"]));
}

#[test]
fn header_only_source() {
    let src = lines(&["h1", "h2"]);
    let fs = split_lines("g.csv", &src, 1, 2).unwrap();
    assert_eq!(fs.len(), 1);
    assert_eq!(fs[0].lines, lines(&["h1", "h2"]));
}

#[test]
fn file_count_is_lines_over_chunk_rounded_up() {
    for l in 1..20usize {
        for n in 1..7usize {
            let src: Vec<String> = (0..l + 2).map(|i| format!("r{}", i)).collect();
            let fs = split_lines("x.csv", &src, n, 2).unwrap();
            assert_eq!(fs.len(), (l + n - 1) / n);
        }
    }
}

#[test]
fn data_lines_kept_in_order() {
    let src: Vec<String> = (0..23).map(|i| format!("r{}", i)).collect();
    let fs = split_lines("x.csv", &src, 4, 3).unwrap();
    let mut data = Vec::new();
    for f in fs.iter() {
        assert_eq!(f.lines[..3].to_vec(), src[..3].to_vec());
        data.extend_from_slice(&f.lines[3..]);
    }
    assert_eq!(data, src[3..].to_vec());
}

#[test]
fn names_are_numbered_from_one() {
    let src: Vec<String> = (0..12).map(|i| format!("r{}", i)).collect();
    let fs = split_lines("dir/data.v1.csv", &src, 1, 0).unwrap();
    assert_eq!(fs.len(), 12);
    for (i, f) in fs.iter().enumerate() {
        assert_eq!(f.path, format!("dir/data.v1-{}.csv", i + 1));
    }
}

#[test]
fn rerun_gives_same_files() {
    let src: Vec<String> = (0..9).map(|i| format!("r{}", i)).collect();
    let a = split_lines("x.csv", &src, 4, 1).unwrap();
    let b = split_lines("x.csv", &src, 4, 1).unwrap();
    assert_eq!(a.len(), b.len());
    for (f, g) in a.iter().zip(b.iter()) {
        assert_eq!(f.path, g.path);
        assert_eq!(f.lines, g.lines);
    }
}

#[test]
fn output_path_keeps_directory() {
    assert_eq!(generate_output_file_path("a.csv", 1).unwrap(), "a-1.csv");
    assert_eq!(generate_output_file_path("/tmp/dir/report.csv", 10).unwrap(), "/tmp/dir/report-10.csv");
    assert_eq!(generate_output_file_path("x/y.txt", 1234567890).unwrap(), "x/y-1234567890.txt");
    assert_eq!(generate_output_file_path("z.tar.gz", 0).unwrap(), "z.tar-0.gz");
}

#[test]
fn output_path_needs_stem_and_extension() {
    assert!(matches!(generate_output_file_path("d", 1), Err(Error::App(_))));
    assert!(matches!(generate_output_file_path("dir/", 1), Err(Error::App(_))));
    assert!(matches!(generate_output_file_path(".bashrc", 1), Err(Error::App(_))));
    assert!(matches!(generate_output_file_path("", 1), Err(Error::App(_))));
}

#[test]
fn splitter_step_by_step() {
    let mut sp = match Splitter::new("s.csv", 2, 1) {
        Ok(s) => s,
        Err(_) => panic!("valid request refused"),
    };
    assert!(matches!(sp.feed("h".to_string()), Emit::Nothing));
    assert_eq!(sp.file_count(), 0);
    match sp.feed("1".to_string()) {
        Emit::Create(f) => {
            assert_eq!(f.path, "s-1.csv");
            assert_eq!(f.lines, lines(&["h", "1"]));
        }
        _ => panic!("expected a new file"),
    }
    match sp.feed("2".to_string()) {
        Emit::Append(l) => assert_eq!(l, "2"),
        _ => panic!("expected an appended line"),
    }
    match sp.feed("3".to_string()) {
        Emit::Create(f) => {
            assert_eq!(f.path, "s-2.csv");
            assert_eq!(f.lines, lines(&["h", "3"]));
        }
        _ => panic!("expected a new file"),
    }
    assert_eq!(sp.file_count(), 2);
    let (e, n) = sp.finish();
    assert!(matches!(e, Emit::Nothing));
    assert_eq!(n, 2);
}

#[test]
fn splitter_finish_without_data() {
    let mut sp = match Splitter::new("t.csv", 3, 1) {
        Ok(s) => s,
        Err(_) => panic!("valid request refused"),
    };
    assert!(matches!(sp.feed("h".to_string()), Emit::Nothing));
    let (e, n) = sp.finish();
    assert_eq!(n, 1);
    match e {
        Emit::Create(f) => {
            assert_eq!(f.path, "t-1.csv");
            assert_eq!(f.lines, lines(&["h"]));
        }
        _ => panic!("expected the header-only file"),
    }
}

#[test]
fn error_messages() {
    assert_eq!(Error::App("num lines cannot be 0".to_string()).message(), "app error: num lines cannot be 0");
    assert_eq!(Error::Io("not found".to_string()).message(), "not found");
}

#[test]
fn empty_extension_rejected() {
    assert!(matches!(generate_output_file_path("a.", 1), Err(Error::App(_))));
    assert!(matches!(generate_output_file_path("dir/a.", 3), Err(Error::App(_))));
    let src = lines(&["1", "2"]);
    assert_eq!(
        app_message(split_lines("a.", &src, 1, 0)),
        "source file name needs a stem and an extension"
    );
    assert!(matches!(Splitter::new("a.", 1, 0), Err(Error::App(_))));
}

#[test]
fn output_file_name_formats_index() {
    assert_eq!(output_file_name("a", 1, "csv"), "a-1.csv");
    assert_eq!(output_file_name("report.v2", 0, "txt"), "report.v2-0.txt");
    assert_eq!(output_file_name("x", 907, "gz"), "x-907.gz");
    assert_eq!(output_file_name("x", usize::MAX, "gz"), format!("x-{}.gz", usize::MAX));
}

#[test]
fn output_file_names_never_repeat() {
    let mut seen = std::collections::HashSet::new();
    for i in 0..2000usize {
        assert!(seen.insert(output_file_name("a", i, "csv")));
    }
}
