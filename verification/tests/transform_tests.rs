use anonymizer::anonymizer::anonymize_string;
use anonymizer::config::AppConfig;
use anonymizer::errors::AnonymizerError;
use anonymizer::frame::{Column, ColumnData, FieldValues, Frame, Refusals, StructField, StructList};
use anonymizer::reader::select_parquet_files;
use anonymizer::transform::{anonymize_dataframe, build_id_map, find_column};
use anonymizer::writer::zstd_level_for;
use anonymizer::{list_dir_candidates, plan_run, process_mailing_list, resolve_list_dir};

fn s(x: &str) -> Option<String> {
    Some(x.to_string())
}

fn no_refusals() -> Refusals {
    Refusals { as_list: String::new(), as_str: String::new(), inner_as_struct: String::new() }
}

fn col(name: &str, data: ColumnData) -> Column {
    Column { name: name.to_string(), data, refusals: no_refusals() }
}

fn field(name: &str, values: FieldValues) -> StructField {
    StructField { name: name.to_string(), values, as_str: String::new() }
}

fn sample_frame() -> Frame {
    Frame {
        columns: vec![
            col("message_id", ColumnData::Other(2)),
            col("from", ColumnData::Str(vec![s("Ann <ann@x.org>"), None])),
            col("to", ColumnData::StrList(vec![Some(vec![s("b@y.org"), None]), None])),
            col("subject", ColumnData::Str(vec![s("hi a@b.c"), s("x")])),
            col("raw_body", ColumnData::Str(vec![s("body\nc@d.e"), s("")])),
            col(
                "trailers",
                ColumnData::StructList(StructList {
                    offsets: vec![0, 1, 1],
                    validity: Some(vec![true, false]),
                    struct_validity: None,
                    fields: vec![
                        field("attribution", FieldValues::Str(vec![s("Signed-off-by")])),
                        field("identification", FieldValues::Str(vec![s("Dee <d@z.org>")])),
                    ],
                }),
            ),
        ],
    }
}

fn anon(x: &str) -> Option<String> {
    Some(anonymize_string(x))
}

#[test]
fn frame_columns_are_anonymized() {
    let out = anonymize_dataframe(sample_frame()).unwrap();
    let cols = &out.columns;
    assert_eq!(cols.len(), 6);
    assert_eq!(cols[0], col("message_id", ColumnData::Other(2)));
    assert_eq!(cols[1].data, ColumnData::Str(vec![anon("Ann <ann@x.org>"), None]));
    assert_eq!(cols[2].data, ColumnData::StrList(vec![Some(vec![anon("b@y.org"), s("")]), None]));
    assert_eq!(cols[3], col("subject", ColumnData::Str(vec![s("hi a@b.c"), s("x")])));
    assert_eq!(cols[4].data, ColumnData::Str(vec![anon("body\nc@d.e"), s("")]));
    match &cols[5].data {
        ColumnData::StructList(l) => {
            assert_eq!(l.offsets, vec![0, 1, 1]);
            assert_eq!(l.validity, None);
            assert_eq!(l.fields[0].values, FieldValues::Str(vec![s("Signed-off-by")]));
            assert_eq!(l.fields[1].values, FieldValues::Str(vec![anon("Dee <d@z.org>")]));
        }
        other => panic!("unexpected {:?}", other),
    }
}

#[test]
fn trailers_that_are_not_lists_fail() {
    let refusals = Refusals {
        as_list: "invalid series dtype: expected `List`, got `str` for `trailers`".to_string(),
        as_str: String::new(),
        inner_as_struct: String::new(),
    };
    let c = Column { name: "trailers".to_string(), data: ColumnData::Str(vec![]), refusals };
    assert_eq!(
        anonymize_dataframe(Frame { columns: vec![c] }),
        Err(AnonymizerError::Polars(
            "invalid series dtype: expected `List`, got `str` for `trailers`".to_string()
        ))
    );
    let refusals = Refusals {
        as_list: String::new(),
        as_str: "not strings".to_string(),
        inner_as_struct: "invalid series dtype: expected `Struct`, got `i64`".to_string(),
    };
    let c = Column { name: "trailers".to_string(), data: ColumnData::OtherList(0), refusals };
    assert_eq!(
        anonymize_dataframe(Frame { columns: vec![c] }),
        Err(AnonymizerError::Config(
            "trailers inner is not a struct: invalid series dtype: expected `Struct`, got `i64`".to_string()
        ))
    );
}

#[test]
fn trailers_without_identity_field_fail() {
    let l = StructList { offsets: vec![0], validity: None, struct_validity: None, fields: vec![] };
    let f = Frame { columns: vec![col("trailers", ColumnData::StructList(l))] };
    assert_eq!(
        anonymize_dataframe(f),
        Err(AnonymizerError::Config("trailers missing 'identification' field".to_string()))
    );
    let l = StructList {
        offsets: vec![0],
        validity: None,
        struct_validity: None,
        fields: vec![StructField {
            name: "identification".to_string(),
            values: FieldValues::Other(0),
            as_str: "invalid series dtype: expected `String`, got `i32`".to_string(),
        }],
    };
    let f = Frame { columns: vec![col("trailers", ColumnData::StructList(l))] };
    assert_eq!(
        anonymize_dataframe(f),
        Err(AnonymizerError::Polars("invalid series dtype: expected `String`, got `i32`".to_string()))
    );
}

#[test]
fn only_the_first_column_of_a_name_is_anonymized() {
    let f = Frame {
        columns: vec![
            col("from", ColumnData::Str(vec![s("a@b.c")])),
            col("from", ColumnData::Str(vec![s("a@b.c")])),
        ],
    };
    let out = anonymize_dataframe(f).unwrap();
    assert_eq!(out.columns[0].data, ColumnData::Str(vec![anon("a@b.c")]));
    assert_eq!(out.columns[1].data, ColumnData::Str(vec![s("a@b.c")]));
}

#[test]
fn id_map_pairs_original_and_hash() {
    let frame = sample_frame();
    let ids = build_id_map(&frame).unwrap();
    assert_eq!(ids.columns.len(), 2);
    assert_eq!(ids.columns[0], col("__original_from", ColumnData::Str(vec![s("Ann <ann@x.org>"), None])));
    assert_eq!(ids.columns[1], col("from", ColumnData::Str(vec![anon("Ann <ann@x.org>"), None])));
    let data = anonymize_dataframe(frame.clone()).unwrap();
    let k = find_column(&frame.columns, "from");
    assert_eq!(ids.columns[1].data, data.columns[k].data);
}

#[test]
fn id_map_needs_a_string_from_column() {
    let f = Frame { columns: vec![] };
    assert_eq!(build_id_map(&f), Err(AnonymizerError::Config("Column 'from' not found".to_string())));
    let refusals = Refusals {
        as_list: String::new(),
        as_str: "invalid series dtype: expected `String`, got `i64` for `from`".to_string(),
        inner_as_struct: String::new(),
    };
    let f = Frame { columns: vec![Column { name: "from".to_string(), data: ColumnData::Other(3), refusals }] };
    assert_eq!(
        build_id_map(&f),
        Err(AnonymizerError::Polars("invalid series dtype: expected `String`, got `i64` for `from`".to_string()))
    );
}

#[test]
fn mailing_list_output() {
    let out = process_mailing_list("lkml", "/out", sample_frame()).unwrap();
    assert_eq!(out.dataset_path, "/out/dataset/list=lkml/list_data.parquet");
    assert_eq!(out.id_map_path, "/out/id_map_from/list=lkml/list_data.parquet");
    assert_eq!(out.dataset, anonymize_dataframe(sample_frame()).unwrap());
    assert_eq!(out.id_map, build_id_map(&sample_frame()).unwrap());
    let out = process_mailing_list("gfs2", "out/", sample_frame()).unwrap();
    assert_eq!(out.dataset_path, "out/dataset/list=gfs2/list_data.parquet");
    assert_eq!(
        process_mailing_list("x", "o", Frame { columns: vec![] }),
        Err(AnonymizerError::Config("Column 'from' not found".to_string()))
    );
}

#[test]
fn list_directories() {
    assert_eq!(
        list_dir_candidates("/in", "lkml"),
        ("/in/lkml".to_string(), "/in/list=lkml".to_string())
    );
    assert_eq!(resolve_list_dir("/in", "lkml", true, true), "/in/lkml");
    assert_eq!(resolve_list_dir("/in", "lkml", false, true), "/in/list=lkml");
    assert_eq!(resolve_list_dir("/in", "lkml", false, false), "/in/lkml");
    assert_eq!(resolve_list_dir("", "lkml", false, true), "list=lkml");
}

fn config(nthreads: u8, lists: Option<Vec<&str>>, level: Option<usize>) -> AppConfig {
    AppConfig {
        nthreads,
        input_dir_path: "in".to_string(),
        output_dir_path: "out".to_string(),
        lists_to_anonymize: lists.map(|l| l.into_iter().map(String::from).collect()),
        compression_level: level,
    }
}

#[test]
fn run_plan_from_config() {
    let mut cfg = config(0, None, None);
    let plan = plan_run(&mut cfg, vec!["a".to_string()]).unwrap();
    assert_eq!(plan.lists, vec!["a".to_string()]);
    assert_eq!(plan.compression, 12);
    assert_eq!(cfg.nthreads, 1);

    let mut cfg = config(4, Some(vec!["x", "y"]), Some(3));
    let plan = plan_run(&mut cfg, vec!["a".to_string()]).unwrap();
    assert_eq!(plan.lists, vec!["x".to_string(), "y".to_string()]);
    assert_eq!(plan.compression, 3);
    assert_eq!(cfg.nthreads, 4);

    let mut cfg = config(0, Some(vec![]), None);
    assert_eq!(plan_run(&mut cfg, vec!["a".to_string()]), None);
    assert_eq!(cfg.nthreads, 0);
}

#[test]
fn zstd_levels() {
    assert_eq!(zstd_level_for(0), Ok(None));
    assert_eq!(zstd_level_for(1), Ok(Some(1)));
    assert_eq!(zstd_level_for(12), Ok(Some(12)));
    assert_eq!(zstd_level_for(22), Ok(Some(22)));
    assert_eq!(
        zstd_level_for(23),
        Err("invalid zstd level 23: valid compression range 1..=22 exceeded.".to_string())
    );
    assert_eq!(
        zstd_level_for(1 << 40),
        Err("invalid zstd level 1099511627776: valid compression range 1..=22 exceeded.".to_string())
    );
}

#[test]
fn parquet_files_are_selected_and_sorted() {
    let entries = vec![
        ("b.parquet".to_string(), true),
        ("a.parquet".to_string(), true),
        ("dir.parquet".to_string(), false),
        (".parquet".to_string(), true),
        ("notes.txt".to_string(), true),
        ("x.tar.parquet".to_string(), true),
        ("A.parquet".to_string(), true),
        ("c.Parquet".to_string(), true),
        ("a.parquet.bak".to_string(), true),
    ];
    assert_eq!(
        select_parquet_files(&entries),
        vec!["A.parquet", "a.parquet", "b.parquet", "x.tar.parquet"]
    );
    assert!(select_parquet_files(&Vec::new()).is_empty());
}
