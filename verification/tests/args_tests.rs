use beautytips::args::parse_args;
use beautytips::args::parse_placeholder;
use beautytips::args::split_arg;
use beautytips::args::Args;
use beautytips::args::ResolvedInputs;
use beautytips::args::filtered_input;
use beautytips::filters::InputFilters;

#[test]
fn test_split_args_ok() {
    assert_eq!(
        vec![
            "test".to_string(),
            "{{files}}".to_string(),
            "foobar".to_string()
        ],
        split_arg("test{{files}}foobar")
    );
}

#[test]
fn test_split_args_ok_array() {
    assert_eq!(
        vec![
            "test".to_string(),
            "{{files...}}".to_string(),
            "foobar".to_string()
        ],
        split_arg("test{{files...}}foobar")
    );
}

#[test]
fn args_test_split_args_ok() {
    assert_eq!(
        vec![
            "test".to_string(),
            "{{files}}".to_string(),
            "foobar".to_string()
        ],
        split_arg("test{{files}}foobar")
    );
}

#[test]
fn args_test_split_args_ok_array() {
    assert_eq!(
        vec![
            "test".to_string(),
            "{{files...}}".to_string(),
            "foobar".to_string()
        ],
        split_arg("test{{files...}}foobar")
    );
}

const ROOT_DIR: &str = "/tmp/51bb3d94";
const PATH_0: &str = "/tmp/51bb3d94/README.md";
const PATH_1: &str = "/tmp/51bb3d94/main.rs";
const PATH_2: &str = "/tmp/51bb3d94/Cargo.toml";
const PATH_3: &str = "/tmp/51bb3d94/docs/doc.md";
const PATH_4: &str = "/tmp/51bb3d94/docs/sections/one.md";

fn test_files() -> Vec<String> {
    vec![
        PATH_0.to_string(),
        PATH_1.to_string(),
        PATH_2.to_string(),
        PATH_3.to_string(),
        PATH_4.to_string(),
    ]
}

fn test_input_arg(arg: &str, filters: &[&str]) -> Option<(Vec<String>, bool)> {
    let mut resolved = ResolvedInputs::new();
    resolved.insert("files".to_string(), Ok(test_files()));

    let filter = InputFilters::from_pairs(vec![(
        "files".to_string(),
        filters.iter().map(|f| f.to_string()).collect(),
    )])
    .unwrap();

    let (name, is_array) = parse_placeholder(arg)?;
    let paths = filtered_input(&resolved, &filter, ROOT_DIR, &name).unwrap();
    Some((paths, is_array))
}

#[test]
fn test_input_arg_none() {
    let result = test_input_arg("foo", &[]);

    assert!(result.is_none());
}

#[test]
fn test_input_arg_files() {
    let (paths, is_array) = test_input_arg("{{files}}", &[]).unwrap();

    assert_eq!(is_array, false);
    assert_eq!(paths.len(), 5);
    assert_eq!(paths[0], PATH_0);
    assert_eq!(paths[1], PATH_1);
    assert_eq!(paths[2], PATH_2);
    assert_eq!(paths[3], PATH_3);
    assert_eq!(paths[4], PATH_4);
}

#[test]
fn test_input_arg_files_dotdotdot() {
    let (paths, is_array) = test_input_arg("{{files...}}", &[]).unwrap();

    assert_eq!(is_array, true);
    assert_eq!(paths.len(), 5);
    assert_eq!(paths[0], PATH_0);
    assert_eq!(paths[1], PATH_1);
    assert_eq!(paths[2], PATH_2);
    assert_eq!(paths[3], PATH_3);
    assert_eq!(paths[4], PATH_4);
}

#[test]
fn test_input_arg_files_filter_starstar_star_md() {
    let (paths, is_array) = test_input_arg("{{files...}}", &["**/*.md"]).unwrap();

    assert_eq!(is_array, true);
    assert_eq!(paths.len(), 3);
    assert_eq!(paths[0], PATH_0);
    assert_eq!(paths[1], PATH_3);
    assert_eq!(paths[2], PATH_4);
}

#[test]
fn test_input_arg_files_filter_star_md() {
    let (paths, is_array) = test_input_arg("{{files...}}", &["*.md"]).unwrap();

    assert_eq!(is_array, true);
    assert_eq!(paths.len(), 1);
    assert_eq!(paths[0], PATH_0);
}

#[test]
fn test_input_arg_files_filter_docs_md() {
    let (paths, is_array) = test_input_arg("{{files...}}", &["docs/*.md"]).unwrap();

    assert_eq!(is_array, true);
    assert_eq!(paths.len(), 1);
    assert_eq!(paths[0], PATH_3);
}

#[test]
fn test_input_arg_files_filter_docs_starstar_md() {
    let (paths, is_array) = test_input_arg("{{files...}}", &["docs/**/*.md"]).unwrap();

    assert_eq!(is_array, true);
    assert_eq!(paths.len(), 2);
    assert_eq!(paths[0], PATH_3);
    assert_eq!(paths[1], PATH_4);
}

#[test]
fn test_input_arg_files_filter_github_actions() {
    let (paths, is_array) =
        test_input_arg("{{files...}}", &[".github/**/*.yaml", ".github/**/*.yml"]).unwrap();

    assert_eq!(is_array, true);
    assert_eq!(paths.len(), 0);
}

fn resolved_with(name: &str, values: &[&str]) -> ResolvedInputs {
    let mut resolved = ResolvedInputs::new();
    resolved.insert(
        name.to_string(),
        Ok(values.iter().map(|v| v.to_string()).collect()),
    );
    resolved
}

fn invocations(mut args: Args) -> Vec<Vec<String>> {
    let mut all = Vec::new();
    loop {
        all.push(args.current_values());
        if args.increment() {
            break;
        }
    }
    all
}

#[test]
fn array_placeholder_expands_to_one_invocation() {
    // An array placeholder contributes every path as its own argv entry, and
    // the schedule holds exactly one invocation.
    let resolved = resolved_with("files", &["a.txt", "b.txt"]);
    let filters = InputFilters::new();
    let command = vec!["echo".to_string(), "{{files...}}".to_string()];
    let args = parse_args(&command, &resolved, &filters, "").unwrap().unwrap();

    let all = invocations(args);
    assert_eq!(all, vec![vec!["a.txt".to_string(), "b.txt".to_string()]]);
}

#[test]
fn scalar_placeholder_iterates_per_path() {
    let resolved = resolved_with("files", &["a.txt", "b.txt"]);
    let filters = InputFilters::new();
    let command = vec!["echo".to_string(), "{{files}}".to_string()];
    let args = parse_args(&command, &resolved, &filters, "").unwrap().unwrap();

    let all = invocations(args);
    assert_eq!(
        all,
        vec![vec!["a.txt".to_string()], vec!["b.txt".to_string()]]
    );
}

#[test]
fn composite_token_cross_product_rightmost_fastest() {
    // Two scalar placeholders in one composite token: four combinations,
    // each exactly once, the second placeholder varying fastest.
    let mut resolved = resolved_with("nums", &["1", "2"]);
    resolved.insert(
        "letters".to_string(),
        Ok(vec!["x".to_string(), "y".to_string()]),
    );
    let filters = InputFilters::new();
    let command = vec!["echo".to_string(), "{{nums}}{{letters}}".to_string()];
    let args = parse_args(&command, &resolved, &filters, "").unwrap().unwrap();

    let all = invocations(args);
    assert_eq!(
        all,
        vec![
            vec!["1x".to_string()],
            vec!["1y".to_string()],
            vec!["2x".to_string()],
            vec!["2y".to_string()],
        ]
    );
}

#[test]
fn composite_token_quotes_values_with_spaces() {
    let resolved = resolved_with("files", &["a b.txt"]);
    let filters = InputFilters::new();
    let command = vec!["echo".to_string(), "--file={{files}}".to_string()];
    let args = parse_args(&command, &resolved, &filters, "").unwrap().unwrap();

    let all = invocations(args);
    assert_eq!(all, vec![vec!["--file='a b.txt'".to_string()]]);
}

#[test]
fn empty_filtered_input_yields_not_applicable() {
    let resolved = resolved_with("files", &[]);
    let filters = InputFilters::new();
    let command = vec!["echo".to_string(), "{{files}}".to_string()];
    let r = parse_args(&command, &resolved, &filters, "").unwrap();
    assert!(r.is_none());
}

#[test]
fn unknown_input_yields_error() {
    let resolved = ResolvedInputs::new();
    let filters = InputFilters::new();
    let command = vec!["echo".to_string(), "{{nonsense}}".to_string()];
    let r = parse_args(&command, &resolved, &filters, "");
    assert!(r.is_err());
}

#[test]
fn literal_tokens_pass_through() {
    let resolved = ResolvedInputs::new();
    let filters = InputFilters::new();
    let command = vec!["echo".to_string(), "-v".to_string(), "x".to_string()];
    let args = parse_args(&command, &resolved, &filters, "").unwrap().unwrap();
    let all = invocations(args);
    assert_eq!(all, vec![vec!["-v".to_string(), "x".to_string()]]);
}

#[test]
fn separate_scalar_tokens_iterate_last_position_fastest() {
    let mut resolved = resolved_with("nums", &["1", "2"]);
    resolved.insert(
        "letters".to_string(),
        Ok(vec!["x".to_string(), "y".to_string()]),
    );
    let filters = InputFilters::new();
    let command = vec![
        "echo".to_string(),
        "{{nums}}".to_string(),
        "{{letters}}".to_string(),
    ];
    let args = parse_args(&command, &resolved, &filters, "").unwrap().unwrap();

    let all = invocations(args);
    assert_eq!(
        all,
        vec![
            vec!["1".to_string(), "x".to_string()],
            vec!["1".to_string(), "y".to_string()],
            vec!["2".to_string(), "x".to_string()],
            vec!["2".to_string(), "y".to_string()],
        ]
    );
}
