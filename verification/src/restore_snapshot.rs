use vstd::prelude::*;

use std::collections::BTreeMap;

use crate::messages::MySbMessage;
use crate::messages::MySbMessageContent;
use crate::page_id::MESSAGES_IN_PAGE;
use crate::page_id::PageId;

verus! {

/// Replays one page's restore window id by id: ids below the requested
/// window were persisted and evicted long ago and come back as
/// tombstones; ids inside the window come back loaded when the snapshot
/// holds them and as `Missing` when it does not.
pub struct MessagesPageRestoreSnapshot {
    pub page_id: PageId,
    pub requested_from_id: i64,
    pub requested_to_id: i64,
    pub messages: Option<BTreeMap<i64, MySbMessageContent>>,
    pub current_message_id: i64,
}

impl MessagesPageRestoreSnapshot {
    pub fn new(page_id: PageId, requested_from_id: i64, requested_to_id: i64) -> (r:
        MessagesPageRestoreSnapshot)
        requires
            page_id.in_bounds(),
        ensures
            r.page_id == page_id,
            r.requested_from_id == requested_from_id,
            r.requested_to_id == requested_to_id,
            r.messages is None,
            r.current_message_id == page_id.spec_value() * (MESSAGES_IN_PAGE as int),
    {
        let current_message_id = page_id.get_first_message_id();
        MessagesPageRestoreSnapshot {
            page_id,
            requested_from_id,
            requested_to_id,
            messages: None,
            current_message_id,
        }
    }

    pub fn new_with_messages(
        page_id: PageId,
        requested_from_id: i64,
        requested_to_id: i64,
        messages: BTreeMap<i64, MySbMessageContent>,
    ) -> (r: MessagesPageRestoreSnapshot)
        requires
            page_id.in_bounds(),
        ensures
            r.page_id == page_id,
            r.requested_from_id == requested_from_id,
            r.requested_to_id == requested_to_id,
            r.messages matches Some(m) && m == messages,
            r.current_message_id == page_id.spec_value() * (MESSAGES_IN_PAGE as int),
    {
        let current_message_id = page_id.get_first_message_id();
        MessagesPageRestoreSnapshot {
            page_id,
            requested_from_id,
            requested_to_id,
            messages: Some(messages),
            current_message_id,
        }
    }

    /// The state of the next id of the window, advancing by one:
    /// tombstone below the requested range, loaded or missing inside it,
    /// `None` once past its end.  A loaded message is handed out exactly
    /// once: it leaves the snapshot.
    pub fn next(&mut self) -> (r: Option<MySbMessage>)
        requires
            old(self).requested_to_id < i64::MAX,
        ensures
            final(self).page_id == old(self).page_id,
            final(self).requested_from_id == old(self).requested_from_id,
            final(self).requested_to_id == old(self).requested_to_id,
            old(self).current_message_id > old(self).requested_to_id ==> r is None && *final(self)
                == *old(self),
            old(self).current_message_id <= old(self).requested_to_id ==> {
                let id = old(self).current_message_id;
                &&& final(self).current_message_id == id + 1
                &&& (id < old(self).requested_from_id ==> r == Some(
                    MySbMessage::GarbageCollected(id),
                ) && final(self).messages == old(self).messages)
                &&& (id >= old(self).requested_from_id ==> match old(self).messages {
                    None => r == Some(MySbMessage::Missing(id)) && final(self).messages == old(
                        self,
                    ).messages,
                    Some(m) => {
                        &&& (final(self).messages matches Some(m2) && m2@ == m@.remove(id))
                        &&& (m@.contains_key(id) ==> r == Some(MySbMessage::Loaded(m@[id])))
                        &&& (!m@.contains_key(id) ==> r == Some(MySbMessage::Missing(id)))
                    },
                })
            },
    {
        if self.current_message_id > self.requested_to_id {
            return None;
        }
        let id = self.current_message_id;
        let result = if id < self.requested_from_id {
            MySbMessage::GarbageCollected(id)
        } else {
            match &mut self.messages {
                Some(message) => {
                    match message.remove(&id) {
                        Some(content) => MySbMessage::Loaded(content),
                        None => MySbMessage::Missing(id),
                    }
                },
                None => MySbMessage::Missing(id),
            }
        };
        self.current_message_id = self.current_message_id + 1;
        Some(result)
    }
}

} // verus!
