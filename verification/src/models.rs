//! Task, tag, event and settings models.
//!
//! Timestamps are nanoseconds since the Unix epoch (UTC) and ids are the
//! 128-bit values of UUIDs, whose numeric order is their byte order.

use vstd::prelude::*;
use crate::text::{str_eq, to_chars, from_chars, trim};

verus! {

/// Errors of the task, tag, settings and wiki operations.
#[derive(Debug, Clone, PartialEq, Eq)]
pub enum Error {
    /// The store could not be read or written (message of the store).
    Database(String),
    /// A value could not be encoded or decoded (message of the codec).
    Serialization(String),
    InvalidStatus(String),
    InvalidEventType(String),
    TaskNotFound(String),
    InvalidDueAt(String),
    TagNotFound(String),
    EmptyTitle,
    NoUpdateFields,
    InvalidCron(String),
    Message(String),
}

/// Lane of a task.
#[derive(Clone, Copy, Debug, PartialEq, Eq, Structural)]
pub enum TaskStatus {
    Inactive,
    Active,
    Complete,
}

/// Wire name of a status.
pub open spec fn status_str(s: TaskStatus) -> Seq<char> {
    match s {
        TaskStatus::Inactive => "inactive"@,
        TaskStatus::Active => "active"@,
        TaskStatus::Complete => "complete"@,
    }
}

/// The status with a wire name.
pub open spec fn status_of(v: Seq<char>) -> Option<TaskStatus> {
    if v == "inactive"@ {
        Some(TaskStatus::Inactive)
    } else if v == "active"@ {
        Some(TaskStatus::Active)
    } else if v == "complete"@ {
        Some(TaskStatus::Complete)
    } else {
        None
    }
}

impl TaskStatus {
    pub fn as_str(self) -> (r: &'static str)
        ensures
            r@ == status_str(self),
    {
        match self {
            TaskStatus::Inactive => "inactive",
            TaskStatus::Active => "active",
            TaskStatus::Complete => "complete",
        }
    }

    /// Parses a wire name; any other text is an invalid status.
    pub fn parse(value: &str) -> (r: Result<TaskStatus, Error>)
        ensures
            match r {
                Ok(s) => status_of(value@) == Some(s),
                Err(e) => status_of(value@) is None && (e matches Error::InvalidStatus(m)
                    && m@ == value@),
            },
    {
        if str_eq(value, "inactive") {
            Ok(TaskStatus::Inactive)
        } else if str_eq(value, "active") {
            Ok(TaskStatus::Active)
        } else if str_eq(value, "complete") {
            Ok(TaskStatus::Complete)
        } else {
            Err(Error::InvalidStatus(from_chars(&to_chars(value))))
        }
    }
}

/// Kind of a task event.
#[derive(Clone, Copy, Debug, PartialEq, Eq, Structural)]
pub enum TaskEventType {
    Created,
    Updated,
    Deleted,
}

/// Wire name of an event type.
pub open spec fn event_type_str(t: TaskEventType) -> Seq<char> {
    match t {
        TaskEventType::Created => "created"@,
        TaskEventType::Updated => "updated"@,
        TaskEventType::Deleted => "deleted"@,
    }
}

/// The event type with a wire name.
pub open spec fn event_type_of(v: Seq<char>) -> Option<TaskEventType> {
    if v == "created"@ {
        Some(TaskEventType::Created)
    } else if v == "updated"@ {
        Some(TaskEventType::Updated)
    } else if v == "deleted"@ {
        Some(TaskEventType::Deleted)
    } else {
        None
    }
}

impl TaskEventType {
    pub fn as_str(self) -> (r: &'static str)
        ensures
            r@ == event_type_str(self),
    {
        match self {
            TaskEventType::Created => "created",
            TaskEventType::Updated => "updated",
            TaskEventType::Deleted => "deleted",
        }
    }

    /// Parses a wire name; any other text is an invalid event type.
    pub fn parse(value: &str) -> (r: Result<TaskEventType, Error>)
        ensures
            match r {
                Ok(t) => event_type_of(value@) == Some(t),
                Err(e) => event_type_of(value@) is None && (e matches Error::InvalidEventType(m)
                    && m@ == value@),
            },
    {
        if str_eq(value, "created") {
            Ok(TaskEventType::Created)
        } else if str_eq(value, "updated") {
            Ok(TaskEventType::Updated)
        } else if str_eq(value, "deleted") {
            Ok(TaskEventType::Deleted)
        } else {
            Err(Error::InvalidEventType(from_chars(&to_chars(value))))
        }
    }
}

/// Wire names and parsing are inverse: every status parses back from its
/// name.
pub proof fn lemma_status_round_trip(s: TaskStatus)
    ensures
        status_of(status_str(s)) == Some(s),
{
    reveal_strlit("inactive");
    reveal_strlit("active");
    reveal_strlit("complete");
    assert("inactive"@.len() != "active"@.len());
    assert("complete"@.len() != "active"@.len());
    assert("inactive"@[0] != "complete"@[0]);
}

/// Every event type parses back from its wire name.
pub proof fn lemma_event_type_round_trip(t: TaskEventType)
    ensures
        event_type_of(event_type_str(t)) == Some(t),
{
    reveal_strlit("created");
    reveal_strlit("updated");
    reveal_strlit("deleted");
    assert("created"@[0] != "updated"@[0]);
    assert("created"@[0] != "deleted"@[0]);
    assert("updated"@[0] != "deleted"@[0]);
}

/// Default origin stamped on events written by this node.
pub const EVENT_ORIGIN_LOCAL: &'static str = "local";

/// Which lanes the board shows.
#[derive(Clone, Copy, Debug, PartialEq, Eq, Structural)]
pub struct LaneVisibility {
    pub inactive: bool,
    pub active: bool,
    pub complete: bool,
}

impl Default for LaneVisibility {
    fn default() -> (r: Self)
        ensures
            r.inactive && r.active && !r.complete,
    {
        LaneVisibility { inactive: true, active: true, complete: false }
    }
}

/// Syncthing REST access.
#[derive(Clone, Debug)]
pub struct SyncthingSettings {
    /// GUI/REST base URL, e.g. `http://127.0.0.1:8384`.
    pub address: String,
    pub api_key: String,
}

/// The Syncthing address used when none is set.
pub const DEFAULT_SYNCTHING_ADDRESS: &'static str = "http://127.0.0.1:8384";

/// The peer sync bind address used when none is set.
pub const DEFAULT_SYNC_BIND: &'static str = "0.0.0.0:7421";

impl SyncthingSettings {
    /// Configured once an API key (other than whitespace) is set.
    pub fn is_configured(&self) -> (r: bool)
        ensures
            r == (trim(self.api_key@).len() > 0),
    {
        let t = crate::text::trim_str(self.api_key.as_str());
        t.as_str().unicode_len() > 0
    }

    /// The stored form of Syncthing settings: a blank address becomes the
    /// default one, any other is trimmed; the key is kept as it is.
    pub fn normalized(self) -> (r: SyncthingSettings)
        ensures
            r.address@ == (if trim(self.address@).len() == 0 {
                DEFAULT_SYNCTHING_ADDRESS@
            } else {
                trim(self.address@)
            }),
            r.api_key == self.api_key,
    {
        let t = crate::text::trim_str(self.address.as_str());
        let address = if t.as_str().unicode_len() == 0 {
            from_chars(&to_chars(DEFAULT_SYNCTHING_ADDRESS))
        } else {
            t
        };
        SyncthingSettings { address, api_key: self.api_key }
    }
}

/// Peer sync listener settings.
#[derive(Clone, Debug)]
pub struct PeerSyncSettings {
    /// When true, desktop starts the sync listener while the app is open.
    pub enabled: bool,
    /// Bind address for the listener (e.g. `0.0.0.0:7421`).
    pub bind: String,
    /// Shared Bearer token for peer auth.
    pub token: String,
}

impl PeerSyncSettings {
    /// Disabled, bound to `0.0.0.0:7421`, no token.
    pub fn with_defaults() -> (r: Self)
        ensures
            !r.enabled,
            r.bind@ == DEFAULT_SYNC_BIND@,
            r.token@.len() == 0,
    {
        PeerSyncSettings {
            enabled: false,
            bind: from_chars(&to_chars(DEFAULT_SYNC_BIND)),
            token: String::new(),
        }
    }

    /// The stored form of peer sync settings: a blank bind address becomes
    /// the default one, any other is trimmed.
    pub fn normalized(self) -> (r: PeerSyncSettings)
        ensures
            r.bind@ == (if trim(self.bind@).len() == 0 {
                DEFAULT_SYNC_BIND@
            } else {
                trim(self.bind@)
            }),
            r.enabled == self.enabled,
            r.token == self.token,
    {
        let t = crate::text::trim_str(self.bind.as_str());
        let bind = if t.as_str().unicode_len() == 0 {
            from_chars(&to_chars(DEFAULT_SYNC_BIND))
        } else {
            t
        };
        PeerSyncSettings { enabled: self.enabled, bind, token: self.token }
    }
}

/// All user settings.
#[derive(Clone, Debug)]
pub struct Settings {
    pub lane_visibility: LaneVisibility,
    pub syncthing: SyncthingSettings,
    pub peer_sync: PeerSyncSettings,
}

/// Settings when nothing is stored: default lanes, the default Syncthing
/// address with no key, default peer sync.
pub fn default_settings() -> (r: Settings)
    ensures
        r.lane_visibility.inactive && r.lane_visibility.active && !r.lane_visibility.complete,
        r.syncthing.address@ == DEFAULT_SYNCTHING_ADDRESS@,
        r.syncthing.api_key@.len() == 0,
        !r.peer_sync.enabled,
        r.peer_sync.bind@ == DEFAULT_SYNC_BIND@,
        r.peer_sync.token@.len() == 0,
{
    Settings {
        lane_visibility: LaneVisibility { inactive: true, active: true, complete: false },
        syncthing: SyncthingSettings {
            address: from_chars(&to_chars(DEFAULT_SYNCTHING_ADDRESS)),
            api_key: String::new(),
        },
        peer_sync: PeerSyncSettings::with_defaults(),
    }
}

} // verus!
