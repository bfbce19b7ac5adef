use rft::expand::{
    expand_params, generate_map_for_params, generate_param_combos, generate_param_pairs,
    parse_param, ParamError, ParamFormat,
};
use rft::model::Batch;

fn defs(items: &[&str]) -> Vec<String> {
    items.iter().map(|s| s.to_string()).collect()
}

fn job(pairs: &[(&str, &str)]) -> Vec<(String, String)> {
    pairs.iter().map(|(k, v)| (k.to_string(), v.to_string())).collect()
}

#[test]
fn pairs_expansion_zips_values_in_order() {
    let jobs = expand_params(&defs(&["a=1,2,3", "b=x,y,z"]), ParamFormat::Pairs).unwrap();
    assert_eq!(jobs.len(), 3);
    assert_eq!(jobs[0], job(&[("a", "1"), ("b", "x")]));
    assert_eq!(jobs[1], job(&[("a", "2"), ("b", "y")]));
    assert_eq!(jobs[2], job(&[("a", "3"), ("b", "z")]));
}

#[test]
fn pairs_length_mismatch_is_invalid() {
    let r = expand_params(&defs(&["a=1,2", "b=x,y,z"]), ParamFormat::Pairs);
    assert_eq!(r, Err(ParamError::InvalidParam));
}

#[test]
fn matrix_expansion_is_full_cross_product() {
    let jobs = expand_params(&defs(&["a=1,2", "b=x,y,z"]), ParamFormat::Matrix).unwrap();
    assert_eq!(jobs.len(), 6);
    for a in ["1", "2"] {
        for b in ["x", "y", "z"] {
            let want = job(&[("a", a), ("b", b)]);
            assert_eq!(jobs.iter().filter(|j| **j == want).count(), 1);
        }
    }
}

#[test]
fn matrix_expansion_order() {
    let jobs = expand_params(&defs(&["a=1,2", "b=x,y,z"]), ParamFormat::Matrix).unwrap();
    assert_eq!(jobs[0], job(&[("a", "1"), ("b", "x")]));
    assert_eq!(jobs[1], job(&[("a", "2"), ("b", "x")]));
    assert_eq!(jobs[5], job(&[("a", "2"), ("b", "z")]));
}

#[test]
fn empty_value_list_is_invalid_under_both_formats() {
    assert_eq!(expand_params(&defs(&["a="]), ParamFormat::Pairs), Err(ParamError::InvalidParam));
    assert_eq!(expand_params(&defs(&["a="]), ParamFormat::Matrix), Err(ParamError::InvalidParam));
    assert_eq!(
        expand_params(&defs(&["b=1,2", "a="]), ParamFormat::Matrix),
        Err(ParamError::InvalidParam)
    );
}

#[test]
fn definition_without_equals_is_invalid() {
    assert_eq!(expand_params(&defs(&["a"]), ParamFormat::Matrix), Err(ParamError::InvalidParam));
    assert_eq!(parse_param("abc"), None);
}

#[test]
fn parse_param_splits_on_first_equals() {
    let (k, vs) = parse_param("expr=a=b,c").unwrap();
    assert_eq!(k, "expr");
    assert_eq!(vs, vec!["a=b".to_string(), "c".to_string()]);
    let (k, vs) = parse_param("x=1,,2").unwrap();
    assert_eq!(k, "x");
    assert_eq!(vs, vec!["1".to_string(), "".to_string(), "2".to_string()]);
    let (k, vs) = parse_param("e=").unwrap();
    assert_eq!(k, "e");
    assert!(vs.is_empty());
}

#[test]
fn map_for_params_keeps_first_position_of_repeated_name() {
    let (table, n) =
        generate_map_for_params(&defs(&["a=1,2", "b=3,4", "a=5,6"]), ParamFormat::Pairs).unwrap();
    assert_eq!(n, 2);
    assert_eq!(table.len(), 2);
    assert_eq!(table[0].0, "a");
    assert_eq!(table[0].1, vec!["5".to_string(), "6".to_string()]);
    assert_eq!(table[1].0, "b");
}

#[test]
fn map_for_params_matrix_length_is_zero() {
    let (table, n) = generate_map_for_params(&defs(&["a=1,2", "b=3"]), ParamFormat::Matrix).unwrap();
    assert_eq!(n, 0);
    assert_eq!(table.len(), 2);
}

#[test]
fn combos_of_empty_table_is_empty() {
    assert!(generate_param_combos(&Vec::new()).is_empty());
    assert!(expand_params(&Vec::new(), ParamFormat::Matrix).unwrap().is_empty());
    assert!(expand_params(&Vec::new(), ParamFormat::Pairs).unwrap().is_empty());
}

#[test]
fn combos_count_is_product_of_lengths() {
    let jobs = expand_params(&defs(&["a=1,2", "b=x,y,z", "c=p,q"]), ParamFormat::Matrix).unwrap();
    assert_eq!(jobs.len(), 12);
}

#[test]
fn pairs_of_table_takes_ith_values() {
    let table = vec![
        ("k".to_string(), vec!["1".to_string(), "2".to_string()]),
        ("m".to_string(), vec!["u".to_string(), "v".to_string()]),
    ];
    let jobs = generate_param_pairs(&table, 2);
    assert_eq!(jobs, vec![job(&[("k", "1"), ("m", "u")]), job(&[("k", "2"), ("m", "v")])]);
}

#[test]
fn batch_from_definitions_holds_jobs_in_order() {
    let b = Batch::from_definitions(
        "Matt",
        "examples/basic/main.py",
        "git@github.com/retwolf/rft",
        "master",
        &defs(&["a=1,2,3", "b=x,y,z"]),
        ParamFormat::Pairs,
    )
    .unwrap();
    assert_eq!(b.jobs.len(), 3);
    assert_eq!(b.jobs[1].params, job(&[("a", "2"), ("b", "y")]));
    assert_eq!(b.author, "Matt");
    assert_eq!(b.batch_id.len(), 10);
    assert!(b.batch_id.chars().all(|c| c.is_ascii_digit() || ('a'..='f').contains(&c)));
    assert_ne!(b.jobs[0].job_id, b.jobs[1].job_id);
}

#[test]
fn batch_from_invalid_definitions_is_refused() {
    let r = Batch::from_definitions("a", "b", "c", "d", &defs(&["a=1,2", "b=x"]), ParamFormat::Pairs);
    assert!(matches!(r, Err(ParamError::InvalidParam)));
}
