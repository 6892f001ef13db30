use please::shards::{derive_multishard_target_name, pick_repository, shard_url, ContentRange};

#[test]
fn derive_multishard_strips_index_pattern() {
    let name = "gpt-oss-120b-mxfp4-00001-of-00003.gguf";
    let derived = derive_multishard_target_name(name);
    assert_eq!(derived, "gpt-oss-120b-mxfp4.gguf");
}

#[test]
fn derive_multishard_leaves_non_sharded_names() {
    let name = "gpt-oss-20b-mxfp4.gguf";
    let derived = derive_multishard_target_name(name);
    assert_eq!(derived, name);
}

#[test]
fn derive_multishard_handles_simple_prefix_without_extension() {
    let name = "model-1-of-2";
    let derived = derive_multishard_target_name(name);
    assert_eq!(derived, "model");
}

#[test]
fn derive_multishard_ignores_malformed_patterns() {
    let name = "model-of-two";
    let derived = derive_multishard_target_name(name);
    assert_eq!(derived, name);
}

#[test]
fn content_range_parses_full_range_with_total() {
    let header = "bytes 0-9/100";
    let range = ContentRange::parse(header);
    assert_eq!(range.start, Some(0));
    assert_eq!(range.total, Some(100));
}

#[test]
fn content_range_parses_unspecified_start_with_total() {
    let header = "bytes */100";
    let range = ContentRange::parse(header);
    assert_eq!(range.start, None);
    assert_eq!(range.total, Some(100));
}

#[test]
fn content_range_parses_missing_total() {
    let header = "bytes 0-9/*";
    let range = ContentRange::parse(header);
    assert_eq!(range.start, Some(0));
    assert_eq!(range.total, None);
}

#[test]
fn content_range_rejects_invalid_unit() {
    let header = "items 0-9/100";
    let range = ContentRange::parse(header);
    assert_eq!(range.start, None);
    assert_eq!(range.total, None);
}

#[test]
fn repository_table_and_urls() {
    let (repo_small, shards_small) = pick_repository(None);
    assert_eq!(repo_small, "ggml-org/gpt-oss-20b-GGUF");
    assert_eq!(shards_small, vec!["gpt-oss-20b-mxfp4.gguf".to_string()]);

    let (repo_big, shards_big) = pick_repository(Some(" 120b "));
    assert_eq!(repo_big, "ggml-org/gpt-oss-120b-GGUF");
    assert_eq!(shards_big.len(), 3);
    assert_eq!(shards_big[0], "gpt-oss-120b-mxfp4-00001-of-00003.gguf");

    let url = shard_url(&repo_small, &shards_small[0]);
    assert_eq!(
        url,
        "https://huggingface.co/ggml-org/gpt-oss-20b-GGUF/resolve/main/gpt-oss-20b-mxfp4.gguf"
    );

    assert!(please::shards::is_gpt_oss_gguf("GPT-OSS-20b.GGUF"));
    assert!(!please::shards::is_gpt_oss_gguf("other-model.gguf"));
    assert!(!please::shards::is_gpt_oss_gguf("gpt-oss-notes.txt"));
}

#[test]
fn content_range_tolerates_a_plus_sign_and_junk() {
    let range = ContentRange::parse("  bytes +7-9/+20  ");
    assert_eq!(range.start, Some(7));
    assert_eq!(range.total, Some(20));

    let junk = ContentRange::parse("bytes x-9/y");
    assert_eq!(junk.start, None);
    assert_eq!(junk.total, None);

    let huge = ContentRange::parse("bytes 99999999999999999999999-9/3");
    assert_eq!(huge.start, None);
    assert_eq!(huge.total, Some(3));
}
