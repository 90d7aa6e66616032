use opendp::transformations::dataframe::{
    conform_records, create_dataframe, make_create_dataframe, make_split_dataframe,
    make_split_lines, make_split_records, split_dataframe, split_records, vec_str_to_string,
    vec_string_to_str, Column, DataFrame,
};

#[test]
fn test_make_split_lines() {
    let transformation = make_split_lines().unwrap();
    let arg = "ant\nbat\ncat\n".to_owned();
    let ret = transformation.invoke(&arg).unwrap();
    assert_eq!(ret, vec!["ant".to_owned(), "bat".to_owned(), "cat".to_owned()]);
}

#[test]
fn test_make_split_records() {
    let transformation = make_split_records(None).unwrap();
    let arg = vec!["ant, foo".to_owned(), "bat, bar".to_owned(), "cat, baz".to_owned()];
    let ret = transformation.invoke(&arg).unwrap();
    assert_eq!(
        ret,
        vec![
            vec!["ant".to_owned(), "foo".to_owned()],
            vec!["bat".to_owned(), "bar".to_owned()],
            vec!["cat".to_owned(), "baz".to_owned()],
        ]
    );
}

#[test]
fn test_make_create_dataframe() {
    let transformation = make_create_dataframe::<u32>(vec![0, 1]).unwrap();
    let arg = vec![
        vec!["ant".to_owned(), "foo".to_owned()],
        vec!["bat".to_owned(), "bar".to_owned()],
        vec!["cat".to_owned(), "baz".to_owned()],
    ];
    let ret = transformation.invoke(&arg).unwrap();
    let expected: DataFrame<u32> = DataFrame {
        columns: vec![
            (0, Column::new(vec!["ant".to_owned(), "bat".to_owned(), "cat".to_owned()])),
            (1, Column::new(vec!["foo".to_owned(), "bar".to_owned(), "baz".to_owned()])),
        ],
    };
    assert_eq!(ret, expected);
}

#[test]
fn test_make_split_dataframe() {
    let transformation =
        make_split_dataframe::<String>(None, vec!["0".to_string(), "1".to_string()]).unwrap();
    let arg = "ant, foo\nbat, bar\ncat, baz".to_owned();
    let ret = transformation.invoke(&arg).unwrap();
    let expected: DataFrame<String> = DataFrame {
        columns: vec![
            (
                "0".to_owned(),
                Column::new(vec!["ant".to_owned(), "bat".to_owned(), "cat".to_owned()]),
            ),
            (
                "1".to_owned(),
                Column::new(vec!["foo".to_owned(), "bar".to_owned(), "baz".to_owned()]),
            ),
        ],
    };
    assert_eq!(ret, expected);
}

#[test]
fn records_are_cut_or_filled_to_the_number_of_columns() {
    let records = vec![vec!["a", "b", "c"], vec!["d"], vec![], vec!["e", "f"]];
    assert_eq!(
        conform_records(2, &records),
        vec![vec!["a", "b"], vec!["d", ""], vec!["", ""], vec!["e", "f"]]
    );
    assert_eq!(conform_records(0, &records), vec![vec![""; 0]; 4]);
}

#[test]
fn a_short_record_gives_empty_cells() {
    let frame = create_dataframe(vec![10u32, 20, 30], &vec![vec!["a", "b", "c", "d"], vec!["e"]]);
    assert_eq!(
        frame,
        DataFrame {
            columns: vec![
                (10, Column::new(vec!["a".to_owned(), "e".to_owned()])),
                (20, Column::new(vec!["b".to_owned(), "".to_owned()])),
                (30, Column::new(vec!["c".to_owned(), "".to_owned()])),
            ],
        }
    );
}

#[test]
fn a_name_that_occurs_twice_stands_for_its_last_column() {
    let frame = create_dataframe(vec![1u32, 2, 1], &vec![vec!["a", "b", "c"], vec!["d", "e", "f"]]);
    assert_eq!(
        frame,
        DataFrame {
            columns: vec![
                (2, Column::new(vec!["b".to_owned(), "e".to_owned()])),
                (1, Column::new(vec!["c".to_owned(), "f".to_owned()])),
            ],
        }
    );
}

#[test]
fn records_are_split_at_the_separator_and_trimmed() {
    assert_eq!(
        split_records(";", &vec![" a ;b", "c", "", "d;;e ;"]),
        vec![vec!["a", "b"], vec!["c"], vec![""], vec!["d", "", "e", ""]]
    );
    assert_eq!(split_records("--", &vec!["x -- y"]), vec![vec!["x", "y"]]);
}

#[test]
fn a_separator_can_be_given() {
    let transformation = make_split_records(Some("|")).unwrap();
    let ret = transformation.invoke(&vec!["a | b,c".to_owned()]).unwrap();
    assert_eq!(ret, vec![vec!["a".to_owned(), "b,c".to_owned()]]);

    let frame = split_dataframe("|", vec![1u32, 2], "a|b\r\nc|d|e\n\nf");
    assert_eq!(
        frame,
        DataFrame {
            columns: vec![
                (
                    1,
                    Column::new(vec![
                        "a".to_owned(),
                        "c".to_owned(),
                        "".to_owned(),
                        "f".to_owned()
                    ])
                ),
                (
                    2,
                    Column::new(vec![
                        "b".to_owned(),
                        "d".to_owned(),
                        "".to_owned(),
                        "".to_owned()
                    ])
                ),
            ],
        }
    );
}

#[test]
fn strings_and_slices_convert_one_for_one() {
    let owned = vec!["ant".to_owned(), "".to_owned(), "b c".to_owned()];
    let borrowed = vec_string_to_str(&owned);
    assert_eq!(borrowed, vec!["ant", "", "b c"]);
    assert_eq!(vec_str_to_string(borrowed), owned);
}

#[test]
fn text_transformations_are_one_stable() {
    let lines = make_split_lines().unwrap();
    assert_eq!(lines.map(&3), Ok(3));
    assert_eq!(lines.check(&3, &3), Ok(true));
    assert_eq!(lines.check(&3, &2), Ok(false));
    let records = make_split_records(None).unwrap();
    assert_eq!(records.map(&u32::MAX), Ok(u32::MAX));
    let frame = make_create_dataframe::<u32>(vec![0]).unwrap();
    assert_eq!(frame.map(&0), Ok(0));
}

#[test]
fn lines_end_at_a_newline_with_or_without_a_carriage_return() {
    let transformation = make_split_lines().unwrap();
    let lines = |text: &str| transformation.invoke(&text.to_owned()).unwrap();
    assert_eq!(lines("a\r\nb\r"), vec!["a".to_owned(), "b\r".to_owned()]);
    assert_eq!(lines("a\n"), vec!["a".to_owned()]);
    assert_eq!(lines("a"), vec!["a".to_owned()]);
    assert_eq!(lines("\n"), vec!["".to_owned()]);
    assert_eq!(lines("a\n\nb"), vec!["a".to_owned(), "".to_owned(), "b".to_owned()]);
    assert_eq!(lines(""), Vec::<String>::new());
    assert_eq!(lines("\r\n\r\n"), vec!["".to_owned(), "".to_owned()]);
    assert_eq!(lines("x\r\r\ny"), vec!["x\r".to_owned(), "y".to_owned()]);
    assert_eq!(lines("\r"), vec!["\r".to_owned()]);
}

#[test]
fn occurrences_of_a_separator_are_taken_from_the_left() {
    assert_eq!(split_records("aa", &vec!["aaa"]), vec![vec!["", "a"]]);
    assert_eq!(split_records("aa", &vec!["aaaa"]), vec![vec!["", "", ""]]);
    assert_eq!(split_records("ab", &vec!["xabyabab"]), vec![vec!["x", "y", "", ""]]);
    assert_eq!(split_records(",", &vec![","]), vec![vec!["", ""]]);
    assert_eq!(split_records("long separator", &vec!["short"]), vec![vec!["short"]]);
}

#[test]
fn a_column_is_found_by_its_name() {
    let frame = create_dataframe(vec![10u32, 20, 10], &vec![vec!["a", "b", "c"], vec!["d", "e", "f"]]);
    assert_eq!(frame.column(&10), Some(&Column::new(vec!["c".to_owned(), "f".to_owned()])));
    assert_eq!(frame.column(&20), Some(&Column::new(vec!["b".to_owned(), "e".to_owned()])));
    assert_eq!(frame.column(&30), None);
    let named = split_dataframe(",", vec!["x".to_owned(), "y".to_owned()], "1,2\n3,4");
    assert_eq!(
        named.column(&"y".to_owned()),
        Some(&Column::new(vec!["2".to_owned(), "4".to_owned()]))
    );
}

#[test]
fn an_empty_separator_sets_every_character_apart() {
    assert_eq!(split_records("", &vec!["ab"]), vec![vec!["", "a", "b", ""]]);
}
