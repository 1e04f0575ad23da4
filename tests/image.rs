use dyson::image::{is_container_image, parse_image_uris, EcrImageDetail, EcrImageId, Timestamp};

#[test]
fn from_image_uri_opt() {
    let cases = vec![
        ("public.ecr.aws/nginx/nginx:stable", None),
        ("nginx:latest", None),
        ("gcr.io/google-containers/nginx:latest", None),
        (
            "123456789012.dkr.ecr.us-east-1.amazonaws.com/A/b:latest",
            Some(EcrImageId {
                registry_id: "123456789012".to_string(),
                region: "us-east-1".to_string(),
                repository_name: "A/b".to_string(),
                image_tag: "latest".to_string(),
            }),
        ),
    ];

    for (input, expected) in cases {
        assert_eq!(EcrImageId::from_image_uri_opt(input), expected);
    }
}

#[test]
fn uri_shapes_that_are_rejected() {
    let rejected = vec![
        // eleven digits
        "12345678901.dkr.ecr.us-east-1.amazonaws.com/repo:tag",
        // a letter in the registry id
        "12345678901a.dkr.ecr.us-east-1.amazonaws.com/repo:tag",
        // upper case in the region
        "123456789012.dkr.ecr.US-east-1.amazonaws.com/repo:tag",
        // empty region
        "123456789012.dkr.ecr..amazonaws.com/repo:tag",
        // no tag
        "123456789012.dkr.ecr.us-east-1.amazonaws.com/repo",
        // empty tag
        "123456789012.dkr.ecr.us-east-1.amazonaws.com/repo:",
        // empty repository
        "123456789012.dkr.ecr.us-east-1.amazonaws.com/:tag",
        // two colons
        "123456789012.dkr.ecr.us-east-1.amazonaws.com/repo:a:b",
        "",
    ];
    for uri in rejected {
        assert_eq!(EcrImageId::from_image_uri_opt(uri), None, "{}", uri);
    }
}

#[test]
fn uri_needs_a_dot_before_com() {
    assert_eq!(
        EcrImageId::from_image_uri_opt("123456789012.dkr.ecr.us-east-1.amazonawsXcom/A/b:latest"),
        None
    );
    assert_eq!(
        EcrImageId::from_image_uri_opt("210987654321.dkr.ecr.ap-northeast-1.amazonaws.com/team/app:v1.2"),
        Some(EcrImageId::new("210987654321", "ap-northeast-1", "team/app", "v1.2"))
    );
}

#[test]
fn parse_image_uris_keeps_registry_images() {
    let uris = vec![
        "nginx:latest".to_string(),
        "123456789012.dkr.ecr.us-east-1.amazonaws.com/a:1".to_string(),
        "gcr.io/x/y:z".to_string(),
        "123456789012.dkr.ecr.eu-west-1.amazonaws.com/b/c:2".to_string(),
    ];
    let ids = parse_image_uris(&uris);
    assert_eq!(
        ids,
        vec![
            EcrImageId::new("123456789012", "us-east-1", "a", "1"),
            EcrImageId::new("123456789012", "eu-west-1", "b/c", "2"),
        ]
    );
    assert!(parse_image_uris(&vec![]).is_empty());
}

#[test]
fn image_ids_differ_in_any_field() {
    let base = EcrImageId::new("r", "g", "n", "t");
    assert_eq!(base, EcrImageId::new("r", "g", "n", "t"));
    assert_ne!(base, EcrImageId::new("x", "g", "n", "t"));
    assert_ne!(base, EcrImageId::new("r", "x", "n", "t"));
    assert_ne!(base, EcrImageId::new("r", "g", "x", "t"));
    assert_ne!(base, EcrImageId::new("r", "g", "n", "x"));
    // comparisons are case-sensitive
    assert_ne!(base, EcrImageId::new("r", "g", "N", "t"));
    assert_eq!(base.copy(), base);
}

#[test]
fn timestamp_nanos() {
    assert_eq!(Timestamp::new(0, 0).as_nanos(), 0);
    assert_eq!(Timestamp::new(-1, 500).as_nanos(), -999_999_500);
    assert_eq!(Timestamp::from_secs(2).as_nanos(), 2_000_000_000);
    assert_eq!(Timestamp::new(i64::MAX, 999_999_999).as_nanos(), i64::MAX as i128 * 1_000_000_000 + 999_999_999);
    let d = EcrImageDetail::new("r", "g", "n", "t", Timestamp::from_secs(7));
    assert_eq!(d.id, EcrImageId::new("r", "g", "n", "t"));
    assert_eq!(d.image_pushed_at, Timestamp::from_secs(7));
}

#[test]
fn only_image_packages_are_container_images() {
    assert!(is_container_image("Image"));
    assert!(!is_container_image("Zip"));
    assert!(!is_container_image("image"));
    assert!(!is_container_image("Images"));
    assert!(!is_container_image(""));
}
