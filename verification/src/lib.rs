//! In-memory indexing core of a message-bus topic log.
//!
//! Message ids are monotonically increasing 64-bit integers.  The core
//! tracks sparse sets of ids as ordered disjoint closed ranges
//! ([`QueueWithIntervals`]), maps ids onto fixed-size pages and sub-pages
//! ([`PageId`], [`SubPageId`]), and keeps per-page message state with
//! byte-size accounting and a pending-persist / being-persisted handshake
//! ([`MessagesPage`], [`SubPage`]).  A [`MessagesBucket`] aggregates one
//! delivery batch for one recipient.
//!
//! Every operation here states its behaviour in a contract and is
//! verified against it; the wire codec, clock, and file I/O around the
//! core are external collaborators exchanging plain values with it.

mod queue_index_range;

pub use queue_index_range::QueueIndexRange;
pub use queue_index_range::QueueIndexRangeCompare;
pub use queue_index_range::RemoveResult;

mod queue_with_intervals;

pub use queue_with_intervals::IntervalError;
pub use queue_with_intervals::QueueWithIntervals;
pub use queue_with_intervals::ranges_contain;
pub use queue_with_intervals::ranges_count;
pub use queue_with_intervals::ranges_well_formed;
pub use queue_with_intervals::ranges_id_set;
pub use queue_with_intervals::lemma_first_is_min;
pub use queue_with_intervals::lemma_ranges_count_len;
pub use queue_with_intervals::lemma_ranges_count_is_card;

mod queue_iterators;

pub use queue_iterators::QueueIndexRangeIterator;
pub use queue_iterators::QueueWithIntervalsIterator;

mod interval_set_laws;

pub use interval_set_laws::lemma_dequeue_ascending;
pub use interval_set_laws::lemma_enqueue_then_remove_restores;
pub use interval_set_laws::lemma_interval_set_canonical;
pub use interval_set_laws::lemma_same_ids_same_queue;

mod page_id;

pub use page_id::AsPageId;
pub use page_id::MESSAGES_IN_PAGE;
pub use page_id::PageId;
pub use page_id::PageIdIterator;
pub use page_id::SubPagesIterator;

mod sub_page_id;

pub use sub_page_id::AsSubPageId;
pub use sub_page_id::SUB_PAGES_PER_PAGE;
pub use sub_page_id::SUB_PAGE_MESSAGES_AMOUNT;
pub use sub_page_id::SubPageId;
pub use sub_page_id::SubPageMessagesIterator;
pub use sub_page_id::lemma_sub_page_belongs_to_one_page;

mod split_by_page_id;

pub use split_by_page_id::SplittedByPageId;
pub use split_by_page_id::SplittedByPageIdIterator;
pub use split_by_page_id::page_of;

mod map_accounting;

pub use map_accounting::map_range_sum;

mod messages;

pub use messages::MessageHeader;
pub use messages::MessageId;
pub use messages::MySbMessage;
pub use messages::MySbMessageContent;

mod sub_page;

pub use sub_page::GetMessageResult;
pub use sub_page::SubPage;
pub use sub_page::content_len;
pub use sub_page::one_each;

mod protobuf_models;

pub use protobuf_models::MessageMetaDataProtobufModel;
pub use protobuf_models::MessageProtobufModel;
pub use protobuf_models::MessagesProtobufModel;
pub use protobuf_models::QueueRangeProtobufModel;
pub use protobuf_models::QueueSnapshotProtobufModel;
pub use protobuf_models::TopicSnapshotProtobufModel;
pub use protobuf_models::TopicsSnapshotProtobufModel;

mod messages_page;

pub use messages_page::MessageSize;
pub use messages_page::MessagesPage;
pub use messages_page::entry_content_size;
pub use messages_page::loaded_at;
pub use messages_page::record_matches;

mod messages_page_cache;

pub use messages_page_cache::MessagesPagesCache;
pub use messages_page_cache::PageInfo;
pub use messages_page_cache::pages_persist_count;

mod size_and_amount;

pub use size_and_amount::SizeAndAmount;

mod messages_bucket;

pub use messages_bucket::MessageToSendModel;
pub use messages_bucket::MessagesBucket;
pub use messages_bucket::models_contain_id;
pub use messages_bucket::models_sum;

mod restore_snapshot;

pub use restore_snapshot::MessagesPageRestoreSnapshot;

mod bcl;

pub use bcl::BclDateTime;

pub mod grpc_models;

mod locks;

pub use locks::LockItem;
pub use locks::Locks;

mod topic_queue_type;

pub use topic_queue_type::TopicQueueType;

mod validators;

pub use validators::InvalidTopicName;
pub use validators::allowed_symbol;
pub use validators::is_reserved_topic_name;
pub use validators::topic_name_format_ok;
pub use validators::validate_topic_name;
