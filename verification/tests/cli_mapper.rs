use telfhash_rs::cli_mapper::{unique_paths, CliRequest};
use telfhash_rs::model::GroupingMode;
use telfhash_rs::output::{HashOutputFormat, OutputDestination};

#[test]
fn maps_cli_request_to_analysis_and_output_requests() {
    let cli = CliRequest {
        files: vec!["a".to_string()],
        grouping_mode: GroupingMode::Compatible,
        group: false,
        threshold: 50,
        output: Some("out.tsv".to_string()),
        format: None,
        debug: true,
    };

    let analysis = cli.to_analysis_request();
    let output = cli.to_output_request();

    assert!(analysis.grouping.is_none());
    assert_eq!(output.format, HashOutputFormat::Tsv);
    assert_eq!(output.destination, OutputDestination::File("out.tsv".to_string()));
    assert!(output.debug);
}

#[test]
fn grouping_request_carries_mode_and_threshold() {
    let cli = CliRequest {
        files: vec!["a".to_string(), "b".to_string()],
        grouping_mode: GroupingMode::ConnectedComponents,
        group: true,
        threshold: 7,
        output: None,
        format: Some(HashOutputFormat::Json),
        debug: false,
    };

    let analysis = cli.to_analysis_request();
    let output = cli.to_output_request();

    assert_eq!(analysis.paths, vec!["a".to_string(), "b".to_string()]);
    let plan = analysis.grouping.unwrap();
    assert_eq!(plan.threshold, 7);
    assert_eq!(plan.mode, GroupingMode::ConnectedComponents);
    assert_eq!(output.format, HashOutputFormat::Json);
    assert_eq!(output.destination, OutputDestination::Stdout);
    assert!(!output.debug);
}

#[test]
fn plain_is_the_default_format_on_stdout() {
    let cli = CliRequest {
        files: vec![],
        grouping_mode: GroupingMode::Compatible,
        group: false,
        threshold: 50,
        output: None,
        format: None,
        debug: false,
    };

    assert_eq!(cli.to_output_request().format, HashOutputFormat::Plain);
}

#[test]
fn unique_paths_keep_first_occurrences() {
    let paths = vec![
        "b".to_string(),
        "a".to_string(),
        "b".to_string(),
        "c".to_string(),
        "a".to_string(),
    ];

    assert_eq!(unique_paths(paths), vec!["b", "a", "c"]);
    assert!(unique_paths(vec![]).is_empty());
}
