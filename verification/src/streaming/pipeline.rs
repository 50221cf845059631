//! Settings of the staged processing pipeline, and the keywords its indexing stage keeps.

use crate::security::quirks::{lowercase, to_lowercase};
use crate::text::{ranges_hold, split_whitespace_ranges, split_words};
use std::collections::HashMap;
use vstd::prelude::*;
use vstd::utf8::encode_utf8;

verus! {

/// Settings of the whole pipeline.
#[derive(Debug, Clone)]
pub struct PipelineConfig {
    pub buffer_size: usize,
    pub max_concurrent_tasks: usize,
    pub enable_backpressure: bool,
    pub timeout_ms: u64,
    pub retry_attempts: usize,
}

impl Default for PipelineConfig {
    fn default() -> (r: Self)
        ensures
            r.buffer_size == 1000,
            r.max_concurrent_tasks == 4,
            r.enable_backpressure,
            r.timeout_ms == 30000,
            r.retry_attempts == 3,
    {
        PipelineConfig {
            buffer_size: 1000,
            max_concurrent_tasks: 4,
            enable_backpressure: true,
            timeout_ms: 30000,
            retry_attempts: 3,
        }
    }
}

/// Counters of one stage.
#[derive(Debug, Clone, Default)]
pub struct StageStatistics {
    pub stage_name: String,
    pub items_processed: usize,
    pub processing_time_ms: u64,
    pub error_count: usize,
    pub queue_depth: usize,
}

/// Settings of one stage.
#[derive(Debug, Clone)]
pub struct StageConfig {
    pub max_queue_size: usize,
    pub processing_timeout_ms: u64,
    pub enable_parallel_processing: bool,
    pub batch_size: usize,
}

impl Default for StageConfig {
    fn default() -> (r: Self)
        ensures
            r.max_queue_size == 100,
            r.processing_timeout_ms == 5000,
            !r.enable_parallel_processing,
            r.batch_size == 1,
    {
        StageConfig {
            max_queue_size: 100,
            processing_timeout_ms: 5000,
            enable_parallel_processing: false,
            batch_size: 1,
        }
    }
}

/// What an item in the pipeline holds.
#[derive(Debug, Clone, Copy, PartialEq, Eq, Structural)]
pub enum PipelineItemType {
    RawData,
    ParsedObject,
    AstNode,
    Document,
    ValidationResult,
    IndexEntry,
}

/// Where an item comes from and how to treat it.
#[derive(Debug, Clone)]
pub struct PipelineMetadata {
    pub created_at: std::time::SystemTime,
    pub source_offset: u64,
    pub priority: u8,
    pub retry_count: usize,
    pub processing_hints: HashMap<String, String>,
}

/// Settings of the indexing stage.
#[derive(Debug, Clone)]
pub struct IndexConfig {
    pub extract_text: bool,
    pub extract_metadata: bool,
    pub min_word_length: usize,
    pub max_index_size: usize,
}

impl Default for IndexConfig {
    fn default() -> (r: Self)
        ensures
            r.extract_text,
            r.extract_metadata,
            r.min_word_length == 3,
            r.max_index_size == 1000000,
    {
        IndexConfig {
            extract_text: true,
            extract_metadata: true,
            min_word_length: 3,
            max_index_size: 1000000,
        }
    }
}

/// The words whose UTF-8 encoding has at least `min` bytes, in order.
pub open spec fn long_words(words: Seq<Seq<char>>, min: nat) -> Seq<Seq<char>>
    decreases words.len(),
{
    if words.len() == 0 {
        seq![]
    } else {
        let prev = long_words(words.drop_last(), min);
        if encode_utf8(words.last()).len() >= min {
            prev.push(words.last())
        } else {
            prev
        }
    }
}

/// The long words of a prefix are the first long words of the whole.
proof fn lemma_long_words_prefix(words: Seq<Seq<char>>, min: nat, j: int)
    requires
        0 <= j <= words.len(),
    ensures
        long_words(words.take(j), min).len() <= long_words(words, min).len(),
        long_words(words, min).take(long_words(words.take(j), min).len() as int) == long_words(
            words.take(j),
            min,
        ),
    decreases words.len(),
{
    if j == words.len() {
        assert(words.take(j) =~= words);
        assert(long_words(words, min).take(long_words(words, min).len() as int) =~= long_words(
            words,
            min,
        ));
    } else {
        lemma_long_words_prefix(words.drop_last(), min, j);
        assert(words.drop_last().take(j) =~= words.take(j));
        let a = long_words(words.take(j), min);
        let p = long_words(words.drop_last(), min);
        assert(p.push(words.last()).take(a.len() as int) =~= p.take(a.len() as int));
    }
}

/// The first hundred items of `s`, or all of them when fewer.
pub open spec fn first_hundred(s: Seq<Seq<char>>) -> Seq<Seq<char>> {
    if s.len() <= 100 {
        s
    } else {
        s.take(100)
    }
}

/// The keywords kept of an indexed text: its first hundred words of at least `min` bytes,
/// in lower case; none when text is not extracted.
pub open spec fn index_keywords(content: Seq<char>, extract_text: bool, min: nat) -> Seq<Seq<char>> {
    if extract_text && content.len() > 0 {
        first_hundred(long_words(split_words(content), min)).map_values(|w: Seq<char>| lowercase(w))
    } else {
        seq![]
    }
}

/// The stage that turns nodes into index entries.
pub struct IndexingStage {
    index_config: IndexConfig,
}

impl IndexingStage {
    /// The settings of the stage.
    pub closed spec fn config(&self) -> IndexConfig {
        self.index_config
    }

    pub fn new(config: IndexConfig) -> (r: Self)
        ensures
            r.config() == config,
    {
        IndexingStage { index_config: config }
    }

    /// The keywords that the stage keeps of a node's text.
    pub fn extract_keywords(&self, content: &str) -> (r: Vec<String>)
        ensures
            r@.map_values(|s: String| s@) == index_keywords(
                content@,
                self.config().extract_text,
                self.config().min_word_length as nat,
            ),
    {
        let mut keywords: Vec<String> = Vec::new();
        let ghost min = self.index_config.min_word_length as nat;
        if !self.index_config.extract_text || content.unicode_len() == 0 {
            assert(keywords@.map_values(|s: String| s@) =~= Seq::<Seq<char>>::empty());
            return keywords;
        }
        let ranges = split_whitespace_ranges(content);
        let ghost words = split_words(content@);
        let mut i: usize = 0;
        while i < ranges.len() && keywords.len() < 100
            invariant
                i <= ranges@.len(),
                ranges_hold(content@, ranges@, words),
                words == split_words(content@),
                min == self.index_config.min_word_length,
                keywords@.len() <= 100,
                keywords@.map_values(|s: String| s@) == long_words(words.take(i as int), min).map_values(
                    |w: Seq<char>| lowercase(w),
                ),
            decreases ranges@.len() - i,
        {
            let (a, b) = ranges[i];
            let word = content.substring_char(a, b);
            let ghost before = keywords@;
            assert(word@ == words[i as int]);
            assert(words.take(i + 1).drop_last() =~= words.take(i as int));
            assert(words.take(i + 1).last() == words[i as int]);
            if word.as_bytes().len() >= self.index_config.min_word_length {
                keywords.push(to_lowercase(word));
                assert(keywords@.map_values(|s: String| s@) =~= before.map_values(|s: String| s@).push(
                    lowercase(word@),
                ));
                assert(long_words(words.take(i + 1), min).map_values(|w: Seq<char>| lowercase(w))
                    =~= long_words(words.take(i as int), min).map_values(|w: Seq<char>| lowercase(w)).push(
                    lowercase(word@),
                ));
            }
            i += 1;
        }
        proof {
            let taken = long_words(words.take(i as int), min);
            lemma_long_words_prefix(words, min, i as int);
            if i == ranges@.len() {
                assert(words.take(i as int) =~= words);
            }
            assert(keywords@.map_values(|s: String| s@).len() == keywords@.len());
            assert(taken.map_values(|w: Seq<char>| lowercase(w)).len() == taken.len());
            assert(taken.len() == keywords@.len());
            if i < ranges@.len() {
                assert(taken.len() == 100);
                assert(first_hundred(long_words(words, min)) =~= taken);
            } else {
                assert(taken == long_words(words, min));
                assert(first_hundred(long_words(words, min)) =~= taken);
            }
            assert(keywords@.map_values(|s: String| s@) =~= taken.map_values(
                |w: Seq<char>| lowercase(w),
            ));
        }
        keywords
    }
}

} // verus!
