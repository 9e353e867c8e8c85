use engine::search_params::SearchParams;

#[test]
fn test_default_params() {
    let params = SearchParams::default();
    assert_eq!(params.lmr_base_reduction, 2);
    assert_eq!(params.null_move_r, 2);
    assert_eq!(params.aspiration_delta, 50);
}

#[test]
fn test_all_params_accessible() {
    let names = SearchParams::param_names();
    let params = SearchParams::default();

    for name in names {
        // Should not panic
        let _ = params.get_by_name(name).unwrap();
    }
}
