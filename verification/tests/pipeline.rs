use pdf_ast::streaming::pipeline::{
    IndexConfig, IndexingStage, PipelineConfig, PipelineItemType, StageConfig, StageStatistics,
};

#[test]
fn pipeline_settings_have_their_defaults() {
    let p = PipelineConfig::default();
    assert_eq!(p.buffer_size, 1000);
    assert_eq!(p.max_concurrent_tasks, 4);
    assert!(p.enable_backpressure);
    assert_eq!(p.timeout_ms, 30000);
    assert_eq!(p.retry_attempts, 3);
    let s = StageConfig::default();
    assert_eq!(s.max_queue_size, 100);
    assert_eq!(s.processing_timeout_ms, 5000);
    assert!(!s.enable_parallel_processing);
    assert_eq!(s.batch_size, 1);
    let i = IndexConfig::default();
    assert!(i.extract_text && i.extract_metadata);
    assert_eq!(i.min_word_length, 3);
    assert_eq!(i.max_index_size, 1_000_000);
    let st = StageStatistics::default();
    assert_eq!(st.items_processed, 0);
    assert_ne!(PipelineItemType::RawData, PipelineItemType::AstNode);
}

#[test]
fn keywords_are_long_words_in_lower_case() {
    let stage = IndexingStage::new(IndexConfig::default());
    assert_eq!(
        stage.extract_keywords("The quick brown Fox is HERE"),
        vec!["the", "quick", "brown", "fox", "here"]
    );
    assert_eq!(stage.extract_keywords("été ab ÀB"), vec!["été", "àb"]);
    assert!(stage.extract_keywords("").is_empty());
    assert!(stage.extract_keywords("a b c").is_empty());
}

#[test]
fn keywords_stop_at_one_hundred() {
    let stage = IndexingStage::new(IndexConfig::default());
    let text: Vec<String> = (0..150).map(|i| format!("word{}", i)).collect();
    let keywords = stage.extract_keywords(&text.join(" "));
    assert_eq!(keywords.len(), 100);
    assert_eq!(keywords[99], "word99");
}

#[test]
fn keywords_need_text_extraction() {
    let config = IndexConfig { extract_text: false, ..IndexConfig::default() };
    let stage = IndexingStage::new(config);
    assert!(stage.extract_keywords("plenty of words here").is_empty());
}
