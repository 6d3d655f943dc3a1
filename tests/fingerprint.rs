use cloudwatch::fingerprint::{Query, FORMAT_VERSION};

fn base() -> Query {
    Query {
        log_group: "my-group".to_string(),
        log_stream: Some("web-1".to_string()),
        filter_pattern: None,
        start_time: Some(1000),
        end_time: None,
        max_items: Some(5),
    }
}

fn copy(q: &Query) -> Query {
    Query {
        log_group: q.log_group.clone(),
        log_stream: q.log_stream.clone(),
        filter_pattern: q.filter_pattern.clone(),
        start_time: q.start_time,
        end_time: q.end_time,
        max_items: q.max_items,
    }
}

#[test]
fn preimage_has_fixed_layout() {
    let expected: Vec<u8> = vec![
        3, 8, 0, 0, 0, 0, 0, 0, 0, 109, 121, 45, 103, 114, 111, 117, 112, 1, 5, 0, 0, 0, 0, 0, 0,
        0, 119, 101, 98, 45, 49, 0, 14, 0, 0, 0, 0, 0, 0, 0, 102, 105, 108, 116, 101, 114, 45,
        112, 97, 116, 116, 101, 114, 110, 1, 232, 3, 0, 0, 0, 0, 0, 0, 0, 8, 0, 0, 0, 0, 0, 0, 0,
        101, 110, 100, 45, 116, 105, 109, 101, 1, 5, 0, 0, 0, 0, 0, 0, 0,
    ];
    assert_eq!(base().preimage(), expected);
    assert_eq!(expected[0], FORMAT_VERSION);
}

#[test]
fn preimage_of_negative_time_and_absent_fields() {
    let q = Query {
        log_group: "g".to_string(),
        log_stream: None,
        filter_pattern: None,
        start_time: Some(-1),
        end_time: None,
        max_items: None,
    };
    let p = q.preimage();
    assert_eq!(p.len(), 101);
    assert_eq!(&p[57..66], &[1, 255, 255, 255, 255, 255, 255, 255, 255]);
    assert_eq!(&p[p.len() - 9..], b"max-items");
}

#[test]
fn fingerprint_is_sha1_of_preimage() {
    assert_eq!(base().fingerprint(), "659b65d0d01f58153982914ffe6dccd617485aa0");
    let q = Query {
        log_group: "g".to_string(),
        log_stream: None,
        filter_pattern: None,
        start_time: Some(-1),
        end_time: None,
        max_items: None,
    };
    assert_eq!(q.fingerprint(), "b5a218a364bdc288e98f55b189f38abdf6abcea3");
}

#[test]
fn fingerprint_is_forty_hex_digits() {
    let fp = base().fingerprint();
    assert_eq!(fp.len(), 40);
    assert!(fp.chars().all(|c| c.is_ascii_digit() || ('a'..='f').contains(&c)));
}

#[test]
fn fingerprint_is_stable_across_calls() {
    let q = base();
    let first = q.fingerprint();
    assert_eq!(q.fingerprint(), first);
    assert_eq!(copy(&q).fingerprint(), first);
}

#[test]
fn fingerprints_differ_in_every_field() {
    let b = base();
    let mut variants: Vec<Query> = Vec::new();
    let mut q = copy(&b);
    q.log_group = "my-group2".to_string();
    variants.push(q);
    let mut q = copy(&b);
    q.log_stream = None;
    variants.push(q);
    let mut q = copy(&b);
    q.log_stream = Some("web-2".to_string());
    variants.push(q);
    let mut q = copy(&b);
    q.filter_pattern = Some("ERROR".to_string());
    variants.push(q);
    let mut q = copy(&b);
    q.start_time = None;
    variants.push(q);
    let mut q = copy(&b);
    q.start_time = Some(1001);
    variants.push(q);
    let mut q = copy(&b);
    q.end_time = Some(2000);
    variants.push(q);
    let mut q = copy(&b);
    q.max_items = None;
    variants.push(q);
    let mut q = copy(&b);
    q.max_items = Some(6);
    variants.push(q);
    // text moved from one field to the next
    let mut q = copy(&b);
    q.log_group = "my-groupweb-1".to_string();
    q.log_stream = Some(String::new());
    variants.push(q);
    // a present field equal to its absent placeholder
    let mut q = copy(&b);
    q.filter_pattern = Some("filter-pattern".to_string());
    variants.push(q);
    // start and end swapped
    let mut q = copy(&b);
    q.start_time = None;
    q.end_time = Some(1000);
    variants.push(q);

    let mut all: Vec<String> = vec![b.fingerprint()];
    for v in &variants {
        all.push(v.fingerprint());
    }
    for i in 0..all.len() {
        for j in 0..all.len() {
            if i != j {
                assert_ne!(all[i], all[j], "variants {} and {}", i, j);
            }
        }
    }
}
