use whatthestack::{
    check_usage, compress_name, name_begins_with, Delta, Function, Mode, Report,
    ReportError, Sort, Symbol, source_location,
};

fn func(addr: u64, name: &str, text: u64, stack: u64) -> Function {
    Function {
        addr,
        name: name.to_string(),
        text,
        stack,
        source: String::new(),
    }
}

fn sym(addr: u64, name: &str, size: u64, stack: Option<u64>) -> Symbol {
    Symbol {
        addr,
        names: vec![name.to_string()],
        size,
        stack,
        source: None,
    }
}

fn addrs(r: &Report) -> Vec<u64> {
    r.functions.iter().map(|f| f.addr).collect()
}

#[test]
fn compress_plain_lowercase_name_is_unchanged() {
    assert_eq!(compress_name("foo"), "foo");
}

#[test]
fn compress_strips_module_prefix() {
    assert_eq!(compress_name("alloc::vec::Vec<T>::push"), "Vec<T>::push");
}

#[test]
fn compress_collapses_inner_paths() {
    assert_eq!(
        compress_name("<core::fmt::Arguments as alloc::string::ToString>::to_string"),
        "<Arguments as ToString>::to_string"
    );
}

#[test]
fn compress_twice_on_common_names() {
    for n in [
        "foo",
        "alloc::vec::Vec<T>::push",
        "<core::fmt::Arguments as alloc::string::ToString>::to_string",
        "main",
        "Foo::bar",
    ] {
        let once = compress_name(n);
        assert_eq!(compress_name(&once), once);
    }
}

#[test]
fn parse_demangles_first_alias_only() {
    let defined = vec![Symbol {
        addr: 0x40,
        names: vec!["_ZN3app4init17h0123456789abcdefE".to_string(), "_ZN3app5alias17h0123456789abcdefE".to_string()],
        size: 8,
        stack: Some(16),
        source: None,
    }];
    let r = Report::parse(Mode::Elf, &defined).unwrap();
    assert_eq!(r.functions[0].name, "app::init");
}

#[test]
fn sort_by_stack_descending_and_stable() {
    let mut r = Report {
        functions: vec![
            func(1, "a", 10, 32),
            func(2, "b", 20, 64),
            func(3, "c", 30, 32),
            func(4, "d", 40, 128),
        ],
    };
    r.sort(Sort::Stack);
    assert_eq!(addrs(&r), vec![4, 2, 1, 3]);
}

#[test]
fn sort_by_text_descending_and_stable() {
    let mut r = Report {
        functions: vec![
            func(1, "a", 10, 0),
            func(2, "b", 30, 0),
            func(3, "c", 10, 0),
            func(4, "d", 30, 0),
        ],
    };
    r.sort(Sort::Text);
    assert_eq!(addrs(&r), vec![2, 4, 1, 3]);
}

#[test]
fn sort_stack_then_address_restores_address_order() {
    let mut r = Report {
        functions: vec![
            func(0x30, "c", 1, 8),
            func(0x10, "a", 2, 64),
            func(0x20, "b", 3, 16),
        ],
    };
    r.sort(Sort::Stack);
    assert_eq!(addrs(&r), vec![0x10, 0x20, 0x30]);
    r.sort(Sort::Address);
    assert_eq!(addrs(&r), vec![0x10, 0x20, 0x30]);
    r.sort(Sort::Text);
    r.sort(Sort::Address);
    assert_eq!(addrs(&r), vec![0x10, 0x20, 0x30]);
}

#[test]
fn sort_empty_report() {
    let mut r = Report { functions: vec![] };
    r.sort(Sort::Address);
    assert!(r.functions.is_empty());
}

#[test]
fn find_returns_first_match() {
    let r = Report {
        functions: vec![func(1, "x", 1, 1), func(2, "y", 2, 2), func(3, "y", 3, 3)],
    };
    assert_eq!(r.find("y").map(|f| f.addr), Some(2));
    assert_eq!(r.find_index("y"), Some(1));
    assert!(r.find("z").is_none());
}

#[test]
fn diff_reports_deltas_by_name() {
    let cur = Report {
        functions: vec![func(1, "a", 100, 64), func(2, "b", 50, 8)],
    };
    let base = Report {
        functions: vec![func(9, "b", 70, 16), func(8, "a", 90, 64)],
    };
    let d = cur.diff(&base);
    assert_eq!(
        d,
        vec![
            Some(Delta { text: 10, stack: 0 }),
            Some(Delta { text: -20, stack: -8 })
        ]
    );
}

#[test]
fn diff_renamed_function_has_no_delta() {
    let cur = Report {
        functions: vec![func(1, "new_name", 100, 64)],
    };
    let base = Report {
        functions: vec![func(1, "old_name", 90, 32)],
    };
    assert_eq!(cur.diff(&base), vec![None]);
}

#[test]
fn diff_extreme_sizes_do_not_wrap() {
    let cur = Report {
        functions: vec![func(1, "a", u64::MAX, 0)],
    };
    let base = Report {
        functions: vec![func(1, "a", 0, u64::MAX)],
    };
    assert_eq!(
        cur.diff(&base),
        vec![Some(Delta {
            text: u64::MAX as i128,
            stack: -(u64::MAX as i128)
        })]
    );
}

#[test]
fn parse_builds_and_orders_by_address() {
    let defined = vec![
        Symbol {
            addr: 0x200,
            names: vec!["_ZN4core3fmt5write17h0123456789abcdefE".to_string(), "alias".to_string()],
            size: 40,
            stack: Some(96),
            source: Some("src/fmt.rs:12".to_string()),
        },
        sym(0x100, "main", 20, None),
    ];
    let r = Report::parse(Mode::Elf, &defined).unwrap();
    assert_eq!(
        r.functions,
        vec![
            Function {
                addr: 0x100,
                name: "main".to_string(),
                text: 20,
                stack: 0,
                source: String::new()
            },
            Function {
                addr: 0x200,
                name: "core::fmt::write".to_string(),
                text: 40,
                stack: 96,
                source: "src/fmt.rs:12".to_string()
            },
        ]
    );
}

#[test]
fn parse_object_mode_is_unsupported() {
    let defined = vec![sym(1, "f", 1, Some(1))];
    assert_eq!(
        Report::parse(Mode::Object, &defined),
        Err(ReportError::UnsupportedMode)
    );
}

#[test]
fn min_stack_floor_keeps_one_row() {
    let defined = vec![
        sym(0x10, "small", 4, Some(64)),
        sym(0x20, "large", 8, Some(128)),
        sym(0x30, "unknown", 12, None),
    ];
    let mut r = Report::parse(Mode::Elf, &defined).unwrap();
    r.sort(Sort::Stack);
    let rows = r.select(100, None).unwrap();
    assert_eq!(rows.len(), 1);
    assert_eq!(rows[0].stack, 128);
    assert_eq!(rows[0].name, "large");
}

#[test]
fn prefix_filter_matching_nothing_is_not_an_error() {
    let r = Report {
        functions: vec![func(1, "core::a", 1, 32), func(2, "app::b", 1, 48)],
    };
    assert_eq!(r.select(0, Some("zzz")), Ok(vec![]));
    let rows = r.select(0, Some("app::")).unwrap();
    assert_eq!(rows, vec![func(2, "app::b", 1, 48)]);
}

#[test]
fn no_stack_information_is_empty_result() {
    let defined = vec![sym(0x10, "a", 4, None), sym(0x20, "b", 8, None)];
    let r = Report::parse(Mode::Elf, &defined).unwrap();
    assert_eq!(r.select(0, None), Err(ReportError::EmptyResult));
    let empty = Report::parse(Mode::Elf, &vec![]).unwrap();
    assert_eq!(empty.select(16, None), Err(ReportError::EmptyResult));
}

#[test]
fn write_and_compare_together_is_usage_error() {
    assert_eq!(check_usage(true, true), Err(ReportError::Usage));
    assert_eq!(check_usage(true, false), Ok(()));
    assert_eq!(check_usage(false, true), Ok(()));
    assert_eq!(check_usage(false, false), Ok(()));
}

#[test]
fn name_prefix_test() {
    assert!(name_begins_with("core::fmt", "core"));
    assert!(name_begins_with("core", ""));
    assert!(!name_begins_with("co", "core"));
    assert!(!name_begins_with("alloc", "core"));
}

#[test]
fn duplicate_copies_fields() {
    let f = Function {
        addr: 7,
        name: "n".to_string(),
        text: 1,
        stack: 2,
        source: "s.rs:1".to_string(),
    };
    assert_eq!(f.duplicate(), f);
}

#[test]
fn source_location_formats_file_and_line() {
    assert_eq!(source_location(Some("src/main.rs"), Some(42)), Some("src/main.rs:42".to_string()));
    assert_eq!(source_location(Some("a.rs"), Some(0)), Some("a.rs:0".to_string()));
    assert_eq!(
        source_location(Some("b.rs"), Some(u32::MAX)),
        Some("b.rs:4294967295".to_string())
    );
    assert_eq!(source_location(Some("a.rs"), None), None);
    assert_eq!(source_location(None, Some(3)), None);
}
