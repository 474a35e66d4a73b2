use taxi_trip_duration_prediction::{
    column_projection, filename_of_link, find_missing_column, plan_download, plan_downloads,
    plan_merge, scrape_links_to_parquet_files, ColumnType, DownloadAction, FileSchema,
    PipelineError, OUTPUT_FILE,
};

fn names(v: &[&str]) -> Vec<String> {
    v.iter().map(|s| s.to_string()).collect()
}

fn full_schema(rows: u64) -> FileSchema {
    FileSchema {
        columns: names(&[
            "VendorID",
            "tpep_pickup_datetime",
            "tpep_dropoff_datetime",
            "PULocationID",
            "DOLocationID",
            "fare_amount",
        ]),
        rows,
    }
}

const LISTING: &str = "<ul><li><a href=\"https://host/a_2022-01.parquet\">Jan</a></li>\
<li><a href=\"https://host/a_2022-02.parquet\">Feb</a></li>\
<li><a href=\"https://host/b_2022-01.parquet\">Jan b</a></li></ul>";

#[test]
fn end_to_end_listing_download_and_merge() {
    let links = scrape_links_to_parquet_files(LISTING, Some("a_2022"));
    assert_eq!(
        links,
        names(&["https://host/a_2022-01.parquet", "https://host/a_2022-02.parquet"])
    );
    let plan = plan_downloads(&links, &Vec::new());
    let files: Vec<String> = plan
        .iter()
        .map(|t| {
            let t = t.as_ref().unwrap();
            assert_eq!(t.action, DownloadAction::Fetch);
            t.filename.clone()
        })
        .collect();
    assert_eq!(files, names(&["a_2022-01.parquet", "a_2022-02.parquet"]));
    let shape = plan_merge(&vec![full_schema(100), full_schema(150)]).unwrap();
    assert_eq!(shape.rows, 250);
    assert_eq!(shape.columns.len(), 4);
    assert_eq!(OUTPUT_FILE, "final.parquet");
}

#[test]
fn scrape_without_pattern_keeps_all_parquet_links() {
    let links = scrape_links_to_parquet_files(LISTING, None);
    assert_eq!(
        links,
        names(&[
            "https://host/a_2022-01.parquet",
            "https://host/a_2022-02.parquet",
            "https://host/b_2022-01.parquet",
        ])
    );
}

#[test]
fn scrape_with_pattern_is_subset_of_unfiltered() {
    let all = scrape_links_to_parquet_files(LISTING, None);
    let some = scrape_links_to_parquet_files(LISTING, Some("2022-01"));
    assert_eq!(
        some,
        names(&["https://host/a_2022-01.parquet", "https://host/b_2022-01.parquet"])
    );
    for link in &some {
        assert!(all.contains(link));
        assert!(link.contains("2022-01"));
    }
}

#[test]
fn scrape_skips_non_parquet_and_keeps_duplicates() {
    let html = "<a href=\"x.csv\">c</a><a href=\"d/x.parquet\">p</a><link href=\"d/x.parquet\"/>";
    let links = scrape_links_to_parquet_files(html, None);
    assert_eq!(links, names(&["d/x.parquet", "d/x.parquet"]));
}

#[test]
fn scrape_empty_and_marker_free_markup() {
    assert!(scrape_links_to_parquet_files("", None).is_empty());
    assert!(scrape_links_to_parquet_files("<p>no links .parquet here</p>", None).is_empty());
    assert!(scrape_links_to_parquet_files("href=", None).is_empty());
}

#[test]
fn scrape_unterminated_value_runs_to_end() {
    let links = scrape_links_to_parquet_files("<a href=\"https://h/f.parquet", None);
    assert_eq!(links, names(&["https://h/f.parquet"]));
}

#[test]
fn scrape_keeps_non_ascii_text() {
    let links = scrape_links_to_parquet_files("é<a href=\"https://h/ü.parquet\">ö</a>", Some("ü"));
    assert_eq!(links, names(&["https://h/ü.parquet"]));
}

#[test]
fn filename_is_last_segment() {
    assert_eq!(
        filename_of_link("https://d.example/trip-data/yellow_tripdata_2024-01.parquet"),
        Ok("yellow_tripdata_2024-01.parquet".to_string())
    );
    assert_eq!(filename_of_link("/a.parquet"), Ok("a.parquet".to_string()));
}

#[test]
fn filename_without_slash_is_invalid() {
    assert_eq!(filename_of_link("a.parquet"), Err(PipelineError::InvalidLinkFormat));
    assert_eq!(filename_of_link(""), Err(PipelineError::InvalidLinkFormat));
    assert_eq!(filename_of_link("https://host/dir/"), Err(PipelineError::InvalidLinkFormat));
}

#[test]
fn plan_download_skips_present_file() {
    let present = names(&["a.parquet", "other"]);
    let t = plan_download("https://h/a.parquet", &present).unwrap();
    assert_eq!(t.action, DownloadAction::Skip);
    assert_eq!(t.filename, "a.parquet");
    assert_eq!(t.link, "https://h/a.parquet");
    let t = plan_download("https://h/b.parquet", &present).unwrap();
    assert_eq!(t.action, DownloadAction::Fetch);
    assert_eq!(t.filename, "b.parquet");
    assert_eq!(
        plan_download("b.parquet", &present).unwrap_err(),
        PipelineError::InvalidLinkFormat
    );
}

#[test]
fn plan_downloads_keeps_order_and_isolates_errors() {
    let links = names(&["https://h/a.parquet", "bad", "https://h/c.parquet"]);
    let plan = plan_downloads(&links, &names(&["c.parquet"]));
    assert_eq!(plan.len(), 3);
    assert_eq!(plan[0].as_ref().unwrap().action, DownloadAction::Fetch);
    assert_eq!(plan[1].as_ref().unwrap_err(), &PipelineError::InvalidLinkFormat);
    assert_eq!(plan[2].as_ref().unwrap().action, DownloadAction::Skip);
}

#[test]
fn second_run_fetches_nothing() {
    let links = names(&["https://h/a.parquet", "https://h/b.parquet", "https://h/a.parquet"]);
    let mut present = names(&["z.parquet"]);
    let first = plan_downloads(&links, &present);
    for t in first.iter().flatten() {
        if t.action == DownloadAction::Fetch {
            present.push(t.filename.clone());
        }
    }
    let before = present.clone();
    let second = plan_downloads(&links, &present);
    for t in &second {
        assert_eq!(t.as_ref().unwrap().action, DownloadAction::Skip);
    }
    assert_eq!(present, before);
}

#[test]
fn projection_order_and_types() {
    let p = column_projection();
    let got: Vec<(&str, ColumnType)> = p.iter().map(|c| (c.source.as_str(), c.target)).collect();
    assert_eq!(
        got,
        vec![
            ("tpep_pickup_datetime", ColumnType::Date),
            ("tpep_dropoff_datetime", ColumnType::Date),
            ("PULocationID", ColumnType::Int64),
            ("DOLocationID", ColumnType::Int64),
        ]
    );
}

#[test]
fn merge_rows_are_summed() {
    let shape = plan_merge(&vec![full_schema(3), full_schema(0), full_schema(7)]).unwrap();
    assert_eq!(shape.rows, 10);
    let empty = plan_merge(&Vec::new()).unwrap();
    assert_eq!(empty.rows, 0);
    assert_eq!(empty.columns.len(), 4);
}

#[test]
fn missing_column_is_found() {
    assert_eq!(find_missing_column(&full_schema(1).columns), None);
    let cols = names(&["tpep_pickup_datetime", "tpep_dropoff_datetime", "DOLocationID"]);
    assert_eq!(find_missing_column(&cols), Some(2));
    assert_eq!(find_missing_column(&Vec::new()), Some(0));
}

#[test]
fn merge_fails_on_first_schema_mismatch() {
    let lacking = FileSchema {
        columns: names(&["tpep_pickup_datetime", "PULocationID", "DOLocationID"]),
        rows: 5,
    };
    let lacking_more = FileSchema { columns: names(&["PULocationID"]), rows: 5 };
    let r = plan_merge(&vec![full_schema(100), lacking, full_schema(2), lacking_more]);
    assert_eq!(
        r.unwrap_err(),
        PipelineError::SchemaMismatch { file_index: 1, column_index: 1 }
    );
}


#[test]
fn scrape_anchor_after_unterminated_value_is_found() {
    let links = scrape_links_to_parquet_files("<a href=\"x<a href=\".parquet\">", None);
    assert_eq!(links, names(&[".parquet"]));
}

#[test]
fn scrape_each_marker_yields_one_link() {
    let links = scrape_links_to_parquet_files("<a href=\".parquet<a href=\".parquet\">", None);
    assert_eq!(links, names(&[".parquet<a href=", ".parquet"]));
}

#[test]
fn scrape_unterminated_anchor_then_matching_anchors() {
    let html = "<a href=\"https://h/broken<a href=\"https://h/a_2022-01.parquet\">x</a>\
<a href=\"https://h/a_2022-02.parquet\">y</a>";
    let links = scrape_links_to_parquet_files(html, Some("a_2022"));
    assert_eq!(
        links,
        names(&["https://h/a_2022-01.parquet", "https://h/a_2022-02.parquet"])
    );
}
