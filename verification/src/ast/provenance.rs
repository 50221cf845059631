//! Where a node came from: its place in the file, the revisions and cross-reference entries
//! behind it, and the transformations applied while it was read.

use crate::ast::node::NodeId;
use crate::types::ObjectId;
use vstd::prelude::*;

verus! {

/// `std::time::SystemTime`, carried as an opaque value.
#[verifier::external_type_specification]
#[verifier::external_body]
pub struct ExSystemTime(std::time::SystemTime);

/// `SystemTime::clone`: `SystemTime` is `Copy`, so its clone is the same instant.
pub assume_specification[ <std::time::SystemTime as std::clone::Clone>::clone ](
    t: &std::time::SystemTime,
) -> (r: std::time::SystemTime)
    ensures
        r == *t,
;

/// Where an object sits in the file.
#[derive(Debug, Clone)]
pub struct SourceInfo {
    /// File offset where this object starts
    pub file_offset: u64,
    /// Size in bytes of the object
    pub object_size: u64,
    /// PDF version when this object was created
    pub pdf_version: Option<String>,
    /// Linearization hint table reference
    pub linearized_hint: Option<u64>,
    /// Object stream container if compressed
    pub container_stream: Option<ObjectId>,
    /// Index within object stream
    pub stream_index: Option<u32>,
}

/// A transformation applied to an object while it was read.
#[derive(Debug, Clone)]
pub struct TransformationInfo {
    pub transformation_type: TransformationType,
    /// Parameters used, each name at most once
    pub parameters: Vec<(String, String)>,
    pub status: TransformationStatus,
    pub original_size: Option<u64>,
    pub final_size: Option<u64>,
    pub timestamp: u64,
}

/// The kind of a transformation.
#[derive(Debug, Clone)]
pub enum TransformationType {
    Decryption { algorithm: String, key_length: u32, crypt_filter: Option<String> },
    Decompression { filter: String, predictor: Option<u32>, columns: Option<u32> },
    AsciiDecoding { encoding: String },
    ImageProcessing { color_space: String, bits_per_component: u32, width: u32, height: u32 },
    ContentProcessing { operators_parsed: u32, graphics_state_depth: u32 },
}

/// How a transformation ended.
#[derive(Debug, Clone)]
pub enum TransformationStatus {
    Success,
    Partial { reason: String },
    Failed { error: String },
    Skipped { reason: String },
}

/// The context that optional-content visibility was evaluated for.
#[derive(Debug, Clone)]
pub enum VisibilityContext {
    View,
    Print,
    Export,
    Custom(String),
}

/// A cross-reference entry as recorded for provenance.
#[derive(Debug, Clone)]
pub struct ProvenanceXRefEntry {
    pub object_id: ObjectId,
    pub offset: u64,
    pub entry_type: XRefEntryType,
    pub generation: u16,
    /// Next free object (for free entries)
    pub next_free: Option<u32>,
}

/// The kind of a cross-reference entry.
#[derive(Debug, Clone, Copy, PartialEq, Eq, Structural)]
pub enum XRefEntryType {
    Free,
    InUse,
    Compressed { stream_id: u32, index: u32 },
}

/// One revision of the document.
#[derive(Debug, Clone)]
pub struct RevisionInfo {
    /// Revision number (0 is original)
    pub revision_number: u32,
    pub xref_offset: u64,
    pub trailer_size: u64,
    pub prev_offset: Option<u64>,
    pub changed_objects: Vec<ObjectId>,
    pub update_timestamp: Option<String>,
    pub signature_coverage: Option<SignatureCoverage>,
}

/// What a signature covers.
#[derive(Debug, Clone)]
pub struct SignatureCoverage {
    pub field_name: String,
    pub byte_range: Vec<u64>,
    pub is_valid: bool,
    pub signer: Option<String>,
}

/// The kind of a recovery performed on damaged input.
#[derive(Debug, Clone, Copy, PartialEq, Eq, Structural)]
pub enum RecoveryType {
    XRefRepair,
    TrailerReconstruction,
    ObjectRepair,
    StreamLengthFix,
    EncodingFallback,
    StructureReconstruction,
}

/// An issue noticed while parsing.
#[derive(Debug, Clone)]
pub struct ParseIssue {
    pub severity: IssueSeverity,
    pub category: IssueCategory,
    pub message: String,
    pub location: Option<FileLocation>,
    pub suggestion: Option<String>,
}

/// How serious an issue is.
#[derive(Debug, Clone, Copy, PartialEq, Eq, Structural)]
pub enum IssueSeverity {
    Info,
    Warning,
    Error,
    Critical,
}

/// What an issue concerns.
#[derive(Debug, Clone, Copy, PartialEq, Eq, Structural)]
pub enum IssueCategory {
    Syntax,
    Structure,
    Security,
    Compatibility,
    Performance,
    Accessibility,
}

/// A span of the file.
#[derive(Debug, Clone, Copy, PartialEq, Eq, Structural)]
pub struct FileLocation {
    pub offset: u64,
    pub length: u64,
    pub line: Option<u32>,
    pub column: Option<u32>,
}

/// Assessed risk.
#[derive(Debug, Clone, Copy, PartialEq, Eq, Structural)]
pub enum RiskLevel {
    Low,
    Medium,
    High,
    Critical,
}

/// The strength of the document's encryption.
#[derive(Debug, Clone)]
pub struct EncryptionStrength {
    pub algorithm: String,
    pub key_length: u32,
    pub is_strong: bool,
    pub vulnerabilities: Vec<String>,
}

/// The validation state of one signature.
#[derive(Debug, Clone)]
pub struct SignatureValidation {
    pub field_name: String,
    pub is_valid: bool,
    pub certificate_chain_valid: bool,
    pub timestamp_valid: Option<bool>,
    pub revocation_status: Option<RevocationStatus>,
}

/// Revocation state of a certificate.
#[derive(Debug, Clone)]
pub enum RevocationStatus {
    Valid,
    Revoked,
    Unknown,
    Error(String),
}

/// The state of the parser while it reads objects.
#[derive(Debug, Clone)]
pub struct ParsingContext {
    pub current_offset: u64,
    pub current_revision: u32,
    pub active_ocgs: Vec<String>,
    pub decryption_state: Option<DecryptionState>,
    pub performance_tracker: PerformanceTracker,
}

/// The decryption in effect.
#[derive(Debug, Clone)]
pub struct DecryptionState {
    pub algorithm: String,
    pub key: Vec<u8>,
    pub crypt_filter: Option<String>,
    pub objects_decrypted: u32,
}

/// Running counters of a parse.
#[derive(Debug, Clone)]
pub struct PerformanceTracker {
    pub start_time: std::time::SystemTime,
    pub objects_parsed: u32,
    pub bytes_processed: u64,
    pub memory_peak: u64,
}

/// Facts about the whole document.
#[derive(Debug, Clone)]
pub struct DocumentProvenance {
    pub file_size: u64,
    pub file_hash_sha256: String,
    pub parse_start_time: u64,
    pub parse_duration_ms: u64,
    pub parser_version: String,
    pub total_revisions: u32,
    pub linearized: bool,
    pub encrypted: bool,
    pub signed: bool,
    pub pdf_version: String,
}


/// What is recorded of one object: where it sits, when, by which parser and in which mode it
/// was read, what reading it cost, the transformations applied to it and the issues noticed
/// in it. A freshly parsed object has no visibility state, cross-reference or revision chain,
/// and no validation findings or scores, and nothing adds them later, so none are held here.
/// Recovery operations carry a floating-point confidence and are not held here either.
#[derive(Debug, Clone)]
pub struct ObjectProvenance {
    pub source: SourceInfo,
    pub parse_timestamp: u64,
    pub parser_version: String,
    pub parse_mode: String,
    pub parse_time_us: u64,
    pub memory_allocated: u64,
    pub children_processed: u32,
    pub max_recursion_depth: u32,
    pub transformations: Vec<TransformationInfo>,
    pub parse_issues: Vec<ParseIssue>,
}

/// `a` and `b` record the same parse of the same object: they differ at most in their
/// transformations and issues.
pub open spec fn same_parse(a: ObjectProvenance, b: ObjectProvenance) -> bool {
    &&& a.source == b.source
    &&& a.parse_timestamp == b.parse_timestamp
    &&& a.parser_version == b.parser_version
    &&& a.parse_mode == b.parse_mode
    &&& a.parse_time_us == b.parse_time_us
    &&& a.memory_allocated == b.memory_allocated
    &&& a.children_processed == b.children_processed
    &&& a.max_recursion_depth == b.max_recursion_depth
}

/// `t` records a successful decryption with `algorithm`, a key of `key_length` bits and the
/// crypt filter `crypt_filter`, at `timestamp`, with no parameters and no sizes.
pub open spec fn decryption_info(
    t: TransformationInfo,
    algorithm: Seq<char>,
    key_length: u32,
    crypt_filter: Option<Seq<char>>,
    timestamp: u64,
) -> bool {
    &&& t.transformation_type matches TransformationType::Decryption {
        algorithm: a,
        key_length: k,
        crypt_filter: c,
    } && a@ == algorithm && k == key_length && match c {
        Some(f) => crypt_filter == Some(f@),
        None => crypt_filter is None,
    }
    &&& t.parameters@.len() == 0
    &&& t.status is Success
    &&& t.original_size is None
    &&& t.final_size is None
    &&& t.timestamp == timestamp
}

/// `t` records a successful decompression through `filter`, with no predictor or columns,
/// from `original_size` to `final_size` bytes, at `timestamp`, with no parameters.
pub open spec fn decompression_info(
    t: TransformationInfo,
    filter: Seq<char>,
    original_size: u64,
    final_size: u64,
    timestamp: u64,
) -> bool {
    &&& t.transformation_type matches TransformationType::Decompression {
        filter: f,
        predictor: p,
        columns: c,
    } && f@ == filter && p is None && c is None
    &&& t.parameters@.len() == 0
    &&& t.status is Success
    &&& t.original_size == Some(original_size)
    &&& t.final_size == Some(final_size)
    &&& t.timestamp == timestamp
}

/// The record of a node among `records`: that of the first entry for it.
pub open spec fn record_of(records: Seq<(NodeId, ObjectProvenance)>, id: NodeId) -> Option<
    ObjectProvenance,
>
    decreases records.len(),
{
    if records.len() == 0 {
        None
    } else if records[0].0 == id {
        Some(records[0].1)
    } else {
        record_of(records.drop_first(), id)
    }
}

/// `rec` is what parsing an object of `size` bytes at `offset` records, read at
/// `parse_timestamp` (seconds since the epoch) in `parse_time_us` microseconds, in a
/// document of PDF version `pdf_version` by parser `parser_version`.
pub open spec fn parsed_record(
    rec: ObjectProvenance,
    offset: u64,
    size: u64,
    pdf_version: Seq<char>,
    parser_version: Seq<char>,
    parse_timestamp: u64,
    parse_time_us: u64,
) -> bool {
    &&& rec.source.file_offset == offset
    &&& rec.source.object_size == size
    &&& rec.source.pdf_version matches Some(v) && v@ == pdf_version
    &&& rec.source.linearized_hint is None
    &&& rec.source.container_stream is None
    &&& rec.source.stream_index is None
    &&& rec.parse_timestamp == parse_timestamp
    &&& rec.parser_version@ == parser_version
    &&& rec.parse_mode@ == "tolerant"@
    &&& rec.parse_time_us == parse_time_us
    &&& rec.memory_allocated == size
    &&& rec.children_processed == 0
    &&& rec.max_recursion_depth == 0
    &&& rec.transformations@.len() == 0
    &&& rec.parse_issues@.len() == 0
}

/// Collects where each node came from while a document is parsed.
pub struct ProvenanceTracker {
    node_provenance: Vec<(NodeId, ObjectProvenance)>,
    current_context: ParsingContext,
    document_metadata: DocumentProvenance,
}

impl ProvenanceTracker {
    /// The record of node `id`, if it has one.
    pub closed spec fn record(&self, id: NodeId) -> Option<ObjectProvenance> {
        record_of(self.node_provenance@, id)
    }

    /// How many objects were parsed.
    pub closed spec fn parsed_count(&self) -> u32 {
        self.current_context.performance_tracker.objects_parsed
    }

    /// How many bytes of objects were parsed.
    pub closed spec fn parsed_bytes(&self) -> u64 {
        self.current_context.performance_tracker.bytes_processed
    }

    /// The document's facts.
    pub closed spec fn document(&self) -> DocumentProvenance {
        self.document_metadata
    }

    /// The optional-content groups currently active.
    pub closed spec fn active_ocgs(&self) -> Seq<String> {
        self.current_context.active_ocgs@
    }

    /// The crypt filter of the decryption in effect, if any.
    pub closed spec fn crypt_filter(&self) -> Option<Seq<char>> {
        match self.current_context.decryption_state {
            Some(d) => match d.crypt_filter {
                Some(f) => Some(f@),
                None => None,
            },
            None => None,
        }
    }

    /// `self` and `other` agree on everything but the records of nodes.
    pub open spec fn same_state(&self, other: &Self) -> bool {
        &&& self.parsed_count() == other.parsed_count()
        &&& self.parsed_bytes() == other.parsed_bytes()
        &&& self.document() == other.document()
        &&& self.active_ocgs() == other.active_ocgs()
        &&& self.crypt_filter() == other.crypt_filter()
    }

    /// A tracker for a parse that started at `start_time`, which is `parse_start_time`
    /// seconds after the epoch, by parser `parser_version`; nothing recorded yet.
    pub fn new(start_time: std::time::SystemTime, parse_start_time: u64, parser_version: String) -> (r: Self)
        ensures
            forall|id: NodeId| #[trigger] r.record(id) is None,
            r.parsed_count() == 0,
            r.parsed_bytes() == 0,
            r.document().parse_start_time == parse_start_time,
            r.document().parser_version == parser_version,
            r.document().pdf_version@.len() == 0,
            r.document().file_size == 0,
            r.document().file_hash_sha256@.len() == 0,
            r.document().parse_duration_ms == 0,
            r.document().total_revisions == 0,
            !r.document().linearized,
            !r.document().encrypted,
            !r.document().signed,
            r.active_ocgs().len() == 0,
            r.crypt_filter() is None,
    {
        ProvenanceTracker {
            node_provenance: Vec::new(),
            current_context: ParsingContext {
                current_offset: 0,
                current_revision: 0,
                active_ocgs: Vec::new(),
                decryption_state: None,
                performance_tracker: PerformanceTracker {
                    start_time,
                    objects_parsed: 0,
                    bytes_processed: 0,
                    memory_peak: 0,
                },
            },
            document_metadata: DocumentProvenance {
                file_size: 0,
                file_hash_sha256: String::new(),
                parse_start_time,
                parse_duration_ms: 0,
                parser_version,
                total_revisions: 0,
                linearized: false,
                encrypted: false,
                signed: false,
                pdf_version: String::new(),
            },
        }
    }

    /// Records that node `node_id` was parsed from the object of `size` bytes at `offset`,
    /// at `parse_timestamp` seconds after the epoch, in `parse_time_us` microseconds since
    /// the parse began: its record becomes the one [`parsed_record`] describes, with the
    /// document's PDF version and parser, replacing an earlier one; other records stay; one
    /// more object and `size` more bytes are counted.
    pub fn record_object_parsed(
        &mut self,
        node_id: NodeId,
        _object_id: ObjectId,
        offset: u64,
        size: u64,
        parse_timestamp: u64,
        parse_time_us: u64,
    )
        requires
            old(self).parsed_count() < u32::MAX,
            old(self).parsed_bytes() + size <= u64::MAX,
        ensures
            final(self).record(node_id) matches Some(rec) && parsed_record(
                rec,
                offset,
                size,
                old(self).document().pdf_version@,
                old(self).document().parser_version@,
                parse_timestamp,
                parse_time_us,
            ),
            forall|id: NodeId| id != node_id ==> #[trigger] final(self).record(id) == old(self).record(id),
            final(self).parsed_count() == old(self).parsed_count() + 1,
            final(self).parsed_bytes() == old(self).parsed_bytes() + size,
            final(self).document() == old(self).document(),
            final(self).active_ocgs() == old(self).active_ocgs(),
            final(self).crypt_filter() == old(self).crypt_filter(),
    {
        let rec = ObjectProvenance {
            source: SourceInfo {
                file_offset: offset,
                object_size: size,
                pdf_version: Some(self.document_metadata.pdf_version.clone()),
                linearized_hint: None,
                container_stream: None,
                stream_index: None,
            },
            parse_timestamp,
            parser_version: self.document_metadata.parser_version.clone(),
            parse_mode: "tolerant".to_string(),
            parse_time_us,
            memory_allocated: size,
            children_processed: 0,
            max_recursion_depth: 0,
            transformations: Vec::new(),
            parse_issues: Vec::new(),
        };
        let ghost old_records = self.node_provenance@;
        let n = self.node_provenance.len();
        let mut i: usize = 0;
        while i < n
            invariant
                n == self.node_provenance@.len(),
                i <= n,
                self.node_provenance@ == old_records,
                forall|j: int| 0 <= j < i ==> self.node_provenance@[j].0 != node_id,
            ensures
                i <= n,
                self.node_provenance@ == old_records,
                i < n ==> self.node_provenance@[i as int].0 == node_id,
                forall|j: int| 0 <= j < i ==> self.node_provenance@[j].0 != node_id,
            decreases n - i,
        {
            if self.node_provenance[i].0 == node_id {
                break;
            }
            i += 1;
        }
        let ghost r2 = rec;
        if i < n {
            self.node_provenance.set(i, (node_id, rec));
            proof {
                lemma_record_update(old_records, node_id, r2, i as int);
                assert(self.node_provenance@ == with_record_at(old_records, node_id, r2, i as int));
            }
        } else {
            self.node_provenance.push((node_id, rec));
            proof {
                lemma_record_update(old_records, node_id, r2, i as int);
                assert(self.node_provenance@ == with_record_at(old_records, node_id, r2, i as int));
            }
        }
        self.current_context.performance_tracker.objects_parsed =
            self.current_context.performance_tracker.objects_parsed + 1;
        self.current_context.performance_tracker.bytes_processed =
            self.current_context.performance_tracker.bytes_processed + size;
    }

    /// The record of node `node_id`, if it has one.
    pub fn get_provenance(&self, node_id: NodeId) -> (r: Option<&ObjectProvenance>)
        ensures
            r matches Some(p) ==> self.record(node_id) == Some(*p),
            r is None ==> self.record(node_id) is None,
    {
        let n = self.node_provenance.len();
        let mut i: usize = 0;
        assert(self.node_provenance@.subrange(0, n as int) =~= self.node_provenance@);
        while i < n
            invariant
                n == self.node_provenance@.len(),
                i <= n,
                record_of(self.node_provenance@, node_id) == record_of(
                    self.node_provenance@.subrange(i as int, n as int),
                    node_id,
                ),
            decreases n - i,
        {
            let ghost rest = self.node_provenance@.subrange(i as int, n as int);
            assert(rest[0] == self.node_provenance@[i as int]);
            if self.node_provenance[i].0 == node_id {
                return Some(&self.node_provenance[i].1);
            }
            assert(rest.drop_first() =~= self.node_provenance@.subrange(i + 1, n as int));
            i += 1;
        }
        None
    }

    /// Position of the first record of `node_id`.
    fn find_record(&self, node_id: NodeId) -> (r: Option<usize>)
        ensures
            match r {
                Some(i) => i < self.node_provenance@.len() && self.node_provenance@[i as int].0
                    == node_id && forall|j: int| 0 <= j < i ==> self.node_provenance@[j].0 != node_id,
                None => forall|j: int|
                    0 <= j < self.node_provenance@.len() ==> self.node_provenance@[j].0 != node_id,
            },
    {
        let n = self.node_provenance.len();
        let mut i: usize = 0;
        while i < n
            invariant
                n == self.node_provenance@.len(),
                i <= n,
                forall|j: int| 0 <= j < i ==> self.node_provenance@[j].0 != node_id,
            decreases n - i,
        {
            if self.node_provenance[i].0 == node_id {
                return Some(i);
            }
            i += 1;
        }
        None
    }

    /// Adds `transformation` to the record of node `node_id`, if it has one; a node without
    /// a record gets none.
    pub fn record_transformation(&mut self, node_id: NodeId, transformation: TransformationInfo)
        ensures
            match old(self).record(node_id) {
                Some(rec) => final(self).record(node_id) matches Some(r2) && same_parse(r2, rec)
                    && r2.parse_issues == rec.parse_issues && r2.transformations@
                    == rec.transformations@.push(transformation),
                None => final(self).record(node_id) is None,
            },
            forall|id: NodeId| id != node_id ==> #[trigger] final(self).record(id) == old(self).record(id),
            final(self).same_state(&*old(self)),
    {
        let ghost records = self.node_provenance@;
        match self.find_record(node_id) {
            Some(i) => {
                proof {
                    lemma_record_at(records, node_id, i as int);
                }
                let (id, mut rec) = self.node_provenance.remove(i);
                rec.transformations.push(transformation);
                let ghost r2 = rec;
                self.node_provenance.insert(i, (id, rec));
                proof {
                    assert(self.node_provenance@ =~= with_record_at(records, node_id, r2, i as int));
                    lemma_record_update(records, node_id, r2, i as int);
                }
            },
            None => {
                proof {
                    lemma_record_at(records, node_id, records.len() as int);
                }
            },
        }
    }

    /// Adds the issue `issue` to the record of node `node_id`, if it has one; a node without
    /// a record gets none.
    pub fn record_parse_issue(&mut self, node_id: NodeId, issue: ParseIssue)
        ensures
            match old(self).record(node_id) {
                Some(rec) => final(self).record(node_id) matches Some(r2) && same_parse(r2, rec)
                    && r2.transformations == rec.transformations && r2.parse_issues@
                    == rec.parse_issues@.push(issue),
                None => final(self).record(node_id) is None,
            },
            forall|id: NodeId| id != node_id ==> #[trigger] final(self).record(id) == old(self).record(id),
            final(self).same_state(&*old(self)),
    {
        let ghost records = self.node_provenance@;
        match self.find_record(node_id) {
            Some(i) => {
                proof {
                    lemma_record_at(records, node_id, i as int);
                }
                let (id, mut rec) = self.node_provenance.remove(i);
                rec.parse_issues.push(issue);
                let ghost r2 = rec;
                self.node_provenance.insert(i, (id, rec));
                proof {
                    assert(self.node_provenance@ =~= with_record_at(records, node_id, r2, i as int));
                    lemma_record_update(records, node_id, r2, i as int);
                }
            },
            None => {
                proof {
                    lemma_record_at(records, node_id, records.len() as int);
                }
            },
        }
    }

    /// The crypt filter of the decryption in effect, as a new string.
    fn current_crypt_filter(&self) -> (r: Option<String>)
        ensures
            match r {
                Some(f) => self.crypt_filter() == Some(f@),
                None => self.crypt_filter() is None,
            },
    {
        match &self.current_context.decryption_state {
            Some(d) => match &d.crypt_filter {
                Some(f) => Some(f.clone()),
                None => None,
            },
            None => None,
        }
    }

    /// Records that node `node_id` was decrypted with `algorithm` and a key of `key_length`
    /// bits at `timestamp` seconds after the epoch, under the crypt filter in effect: a
    /// successful decryption is added to its record, as [`Self::record_transformation`] adds
    /// one.
    pub fn record_decryption(&mut self, node_id: NodeId, algorithm: String, key_length: u32, timestamp: u64)
        ensures
            match old(self).record(node_id) {
                Some(rec) => final(self).record(node_id) matches Some(r2) && same_parse(r2, rec)
                    && r2.parse_issues == rec.parse_issues && r2.transformations@.len()
                    == rec.transformations@.len() + 1 && r2.transformations@.drop_last()
                    == rec.transformations@ && decryption_info(
                    r2.transformations@.last(),
                    algorithm@,
                    key_length,
                    old(self).crypt_filter(),
                    timestamp,
                ),
                None => final(self).record(node_id) is None,
            },
            forall|id: NodeId| id != node_id ==> #[trigger] final(self).record(id) == old(self).record(id),
            final(self).same_state(&*old(self)),
    {
        let crypt_filter = self.current_crypt_filter();
        let transformation = TransformationInfo {
            transformation_type: TransformationType::Decryption { algorithm, key_length, crypt_filter },
            parameters: Vec::new(),
            status: TransformationStatus::Success,
            original_size: None,
            final_size: None,
            timestamp,
        };
        let ghost t = transformation;
        self.record_transformation(node_id, transformation);
        proof {
            if let Some(rec) = old(self).record(node_id) {
                assert(rec.transformations@.push(t).drop_last() =~= rec.transformations@);
            }
        }
    }

    /// Records that node `node_id` was decompressed through `filter` from `original_size` to
    /// `final_size` bytes at `timestamp` seconds after the epoch: a successful decompression
    /// is added to its record, as [`Self::record_transformation`] adds one.
    pub fn record_decompression(
        &mut self,
        node_id: NodeId,
        filter: String,
        original_size: u64,
        final_size: u64,
        timestamp: u64,
    )
        ensures
            match old(self).record(node_id) {
                Some(rec) => final(self).record(node_id) matches Some(r2) && same_parse(r2, rec)
                    && r2.parse_issues == rec.parse_issues && r2.transformations@.len()
                    == rec.transformations@.len() + 1 && r2.transformations@.drop_last()
                    == rec.transformations@ && decompression_info(
                    r2.transformations@.last(),
                    filter@,
                    original_size,
                    final_size,
                    timestamp,
                ),
                None => final(self).record(node_id) is None,
            },
            forall|id: NodeId| id != node_id ==> #[trigger] final(self).record(id) == old(self).record(id),
            final(self).same_state(&*old(self)),
    {
        let transformation = TransformationInfo {
            transformation_type: TransformationType::Decompression { filter, predictor: None, columns: None },
            parameters: Vec::new(),
            status: TransformationStatus::Success,
            original_size: Some(original_size),
            final_size: Some(final_size),
            timestamp,
        };
        let ghost t = transformation;
        self.record_transformation(node_id, transformation);
        proof {
            if let Some(rec) = old(self).record(node_id) {
                assert(rec.transformations@.push(t).drop_last() =~= rec.transformations@);
            }
        }
    }

    /// Makes `active_ocgs` the optional-content groups in effect; records and counters stay.
    pub fn set_visibility_context(&mut self, active_ocgs: Vec<String>, _context: VisibilityContext)
        ensures
            final(self).active_ocgs() == active_ocgs@,
            forall|id: NodeId| #[trigger] final(self).record(id) == old(self).record(id),
            final(self).parsed_count() == old(self).parsed_count(),
            final(self).parsed_bytes() == old(self).parsed_bytes(),
            final(self).document() == old(self).document(),
            final(self).crypt_filter() == old(self).crypt_filter(),
    {
        self.current_context.active_ocgs = active_ocgs;
    }

    /// Every record, as (node, record) pairs, one per node.
    pub fn get_all_provenance(&self) -> (r: &Vec<(NodeId, ObjectProvenance)>)
        ensures
            forall|id: NodeId| #[trigger] record_of(r@, id) == self.record(id),
    {
        &self.node_provenance
    }

    /// The document's facts.
    pub fn get_document_metadata(&self) -> (r: &DocumentProvenance)
        ensures
            *r == self.document(),
    {
        &self.document_metadata
    }

    /// Replaces the document's facts with `metadata`; records and counters stay.
    pub fn set_document_metadata(&mut self, metadata: DocumentProvenance)
        ensures
            final(self).document() == metadata,
            forall|id: NodeId| #[trigger] final(self).record(id) == old(self).record(id),
            final(self).parsed_count() == old(self).parsed_count(),
            final(self).parsed_bytes() == old(self).parsed_bytes(),
            final(self).active_ocgs() == old(self).active_ocgs(),
            final(self).crypt_filter() == old(self).crypt_filter(),
    {
        self.document_metadata = metadata;
    }

    /// Ends the parse after `duration_ms` milliseconds since it began: the document's parse
    /// duration becomes `duration_ms`, and nothing else changes.
    pub fn finalize(&mut self, duration_ms: u64)
        ensures
            final(self).document().parse_duration_ms == duration_ms,
            final(self).document().file_size == old(self).document().file_size,
            final(self).document().file_hash_sha256 == old(self).document().file_hash_sha256,
            final(self).document().parse_start_time == old(self).document().parse_start_time,
            final(self).document().parser_version == old(self).document().parser_version,
            final(self).document().total_revisions == old(self).document().total_revisions,
            final(self).document().linearized == old(self).document().linearized,
            final(self).document().encrypted == old(self).document().encrypted,
            final(self).document().signed == old(self).document().signed,
            final(self).document().pdf_version == old(self).document().pdf_version,
            forall|id: NodeId| #[trigger] final(self).record(id) == old(self).record(id),
            final(self).parsed_count() == old(self).parsed_count(),
            final(self).parsed_bytes() == old(self).parsed_bytes(),
            final(self).active_ocgs() == old(self).active_ocgs(),
            final(self).crypt_filter() == old(self).crypt_filter(),
    {
        self.document_metadata.parse_duration_ms = duration_ms;
    }
}

/// The record of `id` is the one at `i`, the first position holding `id`, or none when `i`
/// is past them all.
proof fn lemma_record_at(records: Seq<(NodeId, ObjectProvenance)>, id: NodeId, i: int)
    requires
        0 <= i <= records.len(),
        forall|j: int| 0 <= j < i ==> records[j].0 != id,
        i < records.len() ==> records[i].0 == id,
    ensures
        record_of(records, id) == if i < records.len() {
            Some(records[i].1)
        } else {
            None
        },
    decreases records.len(),
{
    if records.len() > 0 && i > 0 {
        let t = records.drop_first();
        assert forall|j: int| 0 <= j < i - 1 implies t[j].0 != id by {
            assert(t[j] == records[j + 1]);
        }
        lemma_record_at(t, id, i - 1);
        if i < records.len() {
            assert(t[i - 1] == records[i]);
        }
    }
}

/// `records` with `(id, rec)` written at `i`, or added at the end when `i` is past them.
pub open spec fn with_record_at(
    records: Seq<(NodeId, ObjectProvenance)>,
    id: NodeId,
    rec: ObjectProvenance,
    i: int,
) -> Seq<(NodeId, ObjectProvenance)> {
    if i < records.len() {
        records.update(i, (id, rec))
    } else {
        records.push((id, rec))
    }
}

/// Writing the first record of `id` at `i` (or adding one at the end when `i` is past
/// them all) gives `id` that record and leaves the others.
proof fn lemma_record_update(
    records: Seq<(NodeId, ObjectProvenance)>,
    id: NodeId,
    rec: ObjectProvenance,
    i: int,
)
    requires
        0 <= i <= records.len(),
        forall|j: int| 0 <= j < i ==> records[j].0 != id,
        i < records.len() ==> records[i].0 == id,
    ensures
        record_of(with_record_at(records, id, rec, i), id) == Some(rec),
        forall|other: NodeId|
            other != id ==> #[trigger] record_of(with_record_at(records, id, rec, i), other)
                == record_of(records, other),
    decreases records.len(),
{
    let after = with_record_at(records, id, rec, i);
    if records.len() == 0 {
        assert(after[0] == (id, rec));
        assert(after.drop_first() =~= Seq::<(NodeId, ObjectProvenance)>::empty());
        assert forall|other: NodeId| other != id implies #[trigger] record_of(after, other)
            == record_of(records, other) by {
            assert(record_of(after.drop_first(), other) is None);
        }
    } else if i == 0 {
        assert(after[0] == (id, rec));
        assert(after.drop_first() =~= records.drop_first());
        assert forall|other: NodeId| other != id implies #[trigger] record_of(after, other)
            == record_of(records, other) by {
            assert(record_of(after, other) == record_of(after.drop_first(), other));
        }
    } else {
        let t = records.drop_first();
        assert forall|j: int| 0 <= j < i - 1 implies t[j].0 != id by {
            assert(t[j] == records[j + 1]);
        }
        lemma_record_update(t, id, rec, i - 1);
        let tafter = with_record_at(t, id, rec, i - 1);
        assert(after[0] == records[0]);
        assert(after.drop_first() =~= tafter);
        assert forall|other: NodeId| other != id implies #[trigger] record_of(after, other)
            == record_of(records, other) by {
            if records[0].0 != other {
                assert(record_of(tafter, other) == record_of(t, other));
            }
        }
    }
}
} // verus!
