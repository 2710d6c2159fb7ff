use bgutil_rs::pattern::{compile_fixed, compile_globstar, Op, Pred, ValidationError};

fn segs(parts: &[&str]) -> Vec<String> {
    parts.iter().map(|s| s.to_string()).collect()
}

fn as_triples(preds: &[Pred]) -> Vec<(usize, Op, String)> {
    preds.iter().map(|p| (p.position, p.op, p.value.clone())).collect()
}

#[test]
fn fixed_binds_literals_and_skips_single_star() {
    // Pattern a.*.c: a bound at 0, nothing at 1, c at 2, sentinel at 3.
    let ps = compile_fixed(&segs(&["a", "*", "c"])).unwrap();
    assert_eq!(
        as_triples(&ps),
        vec![
            (0, Op::Equal, "a".to_string()),
            (2, Op::Equal, "c".to_string()),
            (3, Op::Equal, "__END__".to_string()),
        ]
    );
}

#[test]
fn fixed_partial_matches_use_like_with_percent() {
    let ps = compile_fixed(&segs(&["ab*", "*fix", "x*y"])).unwrap();
    assert_eq!(
        as_triples(&ps),
        vec![
            (0, Op::Like, "ab%".to_string()),
            (1, Op::Like, "%fix".to_string()),
            (2, Op::Like, "x%y".to_string()),
            (3, Op::Equal, "__END__".to_string()),
        ]
    );
}

#[test]
fn fixed_empty_pattern_gets_sentinel_at_zero() {
    let ps = compile_fixed(&Vec::new()).unwrap();
    assert_eq!(as_triples(&ps), vec![(0, Op::Equal, "__END__".to_string())]);
}

#[test]
fn fixed_all_wildcards_keeps_only_depth_pin() {
    let ps = compile_fixed(&segs(&["*", "*"])).unwrap();
    assert_eq!(as_triples(&ps), vec![(2, Op::Equal, "__END__".to_string())]);
}

#[test]
fn fixed_rejects_globstar() {
    assert!(matches!(
        compile_fixed(&segs(&["a", "**"])),
        Err(ValidationError::UnexpectedGlobstar)
    ));
}

#[test]
fn globstar_enumerates_every_depth() {
    // Pattern a.**.c: init = [a], tail = [c, sentinel]; 16 - 1 - 2 + 1 = 14 sets.
    let sets = compile_globstar(&segs(&["a", "**", "c"])).unwrap();
    assert_eq!(sets.len(), 14);
    assert_eq!(
        as_triples(&sets[0]),
        vec![
            (0, Op::Equal, "a".to_string()),
            (1, Op::Equal, "c".to_string()),
            (2, Op::Equal, "__END__".to_string()),
        ]
    );
    assert_eq!(
        as_triples(&sets[13]),
        vec![
            (0, Op::Equal, "a".to_string()),
            (14, Op::Equal, "c".to_string()),
            (15, Op::Equal, "__END__".to_string()),
        ]
    );
}

#[test]
fn globstar_alone_spans_all_depths() {
    let sets = compile_globstar(&segs(&["**"])).unwrap();
    assert_eq!(sets.len(), 16);
    for (d, set) in sets.iter().enumerate() {
        assert_eq!(as_triples(set), vec![(d, Op::Equal, "__END__".to_string())]);
    }
}

#[test]
fn globstar_skips_single_star_in_init_and_tail() {
    let sets = compile_globstar(&segs(&["a", "*", "**", "*", "c"])).unwrap();
    // init = [a, *] (length 2), tail = [*, c, sentinel] (length 3): 16 - 2 - 3 + 1 = 12.
    assert_eq!(sets.len(), 12);
    assert_eq!(
        as_triples(&sets[0]),
        vec![
            (0, Op::Equal, "a".to_string()),
            (3, Op::Equal, "c".to_string()),
            (4, Op::Equal, "__END__".to_string()),
        ]
    );
}

#[test]
fn globstar_too_deep_yields_no_sets() {
    let mut parts: Vec<String> = (0..15).map(|i| format!("s{}", i)).collect();
    parts.push("**".to_string());
    parts.push("a".to_string());
    parts.push("b".to_string());
    // init 15 + tail 3 (two literals and the sentinel) > 16.
    let sets = compile_globstar(&parts).unwrap();
    assert!(sets.is_empty());
}

#[test]
fn globstar_falls_back_without_globstar() {
    let sets = compile_globstar(&segs(&["a", "b"])).unwrap();
    assert_eq!(sets.len(), 1);
    assert_eq!(as_triples(&sets[0]), as_triples(&compile_fixed(&segs(&["a", "b"])).unwrap()));
}

#[test]
fn globstar_rejects_two_globstars() {
    assert!(matches!(
        compile_globstar(&segs(&["a", "**", "b", "**"])),
        Err(ValidationError::UnexpectedGlobstar)
    ));
}
