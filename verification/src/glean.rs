//! The state that collection works on: whether upload is enabled, the metric
//! store, the registered pings and the debug settings.

use crate::json::Json;
use crate::labeled::{LabelRegistry, Registry};
use crate::storage::{Database, Records};
use crate::text::str_eq;
use crate::time::Datetime;
use vstd::prelude::*;

verus! {

/// The store that holds the library's own bookkeeping.
pub const INTERNAL_STORAGE: &'static str = "glean_internal_info";

/// The description of a ping: its name and how it is assembled.
#[derive(Debug)]
pub struct PingType {
    pub name: String,
    pub include_client_id: bool,
    pub send_if_empty: bool,
    pub precise_timestamps: bool,
    pub include_info_sections: bool,
    pub enabled: bool,
    pub schedules_pings: Vec<String>,
    pub uploader_capabilities: Vec<String>,
}

impl PingType {
    /// A ping description with the given settings.
    pub fn new(
        name: &str,
        include_client_id: bool,
        send_if_empty: bool,
        precise_timestamps: bool,
        include_info_sections: bool,
        enabled: bool,
        schedules_pings: Vec<String>,
        uploader_capabilities: Vec<String>,
    ) -> (r: PingType)
        ensures
            r.name@ == name@,
            r.include_client_id == include_client_id,
            r.send_if_empty == send_if_empty,
            r.precise_timestamps == precise_timestamps,
            r.include_info_sections == include_info_sections,
            r.enabled == enabled,
            r.schedules_pings == schedules_pings,
            r.uploader_capabilities == uploader_capabilities,
    {
        PingType {
            name: name.to_owned(),
            include_client_id,
            send_if_empty,
            precise_timestamps,
            include_info_sections,
            enabled,
            schedules_pings,
            uploader_capabilities,
        }
    }

    /// The ping's name.
    pub fn name(&self) -> (r: &str)
        ensures
            r@ == self.name@,
    {
        self.name.as_str()
    }
}

/// Some registered ping has the name `name` and is enabled.
pub open spec fn registered_enabled(pings: Seq<PingType>, name: Seq<char>) -> bool {
    exists|i: int| 0 <= i < pings.len() && (#[trigger] pings[i]).name@ == name && pings[i].enabled
}

/// The state that collection works on.
#[derive(Debug)]
pub struct Glean {
    pub upload_enabled: bool,
    pub storage: Database,
    pub start_time: Datetime,
    pub debug_view_tag: Option<String>,
    pub source_tags: Option<Vec<String>>,
    pub ping_registry: Vec<PingType>,
    pub experiments: Option<Json>,
    pub label_registry: LabelRegistry,
    pub write_timings: Vec<u64>,
}

impl Glean {
    /// A state with upload enabled, an empty store, no registered ping and
    /// no debug settings, begun at `start_time`.
    pub fn new(start_time: Datetime) -> (r: Glean)
        ensures
            r.upload_enabled,
            r.storage@ == Records::empty(),
            r.start_time == start_time,
            r.debug_view_tag is None,
            r.source_tags is None,
            r.ping_registry@.len() == 0,
            r.experiments is None,
            r.label_registry@ == Registry::empty(),
            r.write_timings@.len() == 0,
    {
        Glean {
            upload_enabled: true,
            storage: Database::new(),
            start_time,
            debug_view_tag: None,
            source_tags: None,
            ping_registry: Vec::new(),
            experiments: None,
            label_registry: LabelRegistry::new(),
            write_timings: Vec::new(),
        }
    }

    /// Whether upload is enabled.
    pub fn is_upload_enabled(&self) -> (r: bool)
        ensures
            r == self.upload_enabled,
    {
        self.upload_enabled
    }

    /// Enables or disables upload. Disabling it removes every recorded
    /// value, the sequence numbers of the pings among them, and resets the
    /// label registry.
    pub fn set_upload_enabled(&mut self, flag: bool)
        ensures
            final(self).upload_enabled == flag,
            final(self).storage@ == (if old(self).upload_enabled && !flag {
                Records::empty()
            } else {
                old(self).storage@
            }),
            final(self).start_time == old(self).start_time,
            final(self).debug_view_tag == old(self).debug_view_tag,
            final(self).source_tags == old(self).source_tags,
            final(self).ping_registry == old(self).ping_registry,
            final(self).experiments == old(self).experiments,
            final(self).label_registry@ == (if old(self).upload_enabled && !flag {
                Registry::empty()
            } else {
                old(self).label_registry@
            }),
            final(self).write_timings == old(self).write_timings,
    {
        if self.upload_enabled && !flag {
            self.storage.clear_all();
            self.label_registry.clear();
        }
        self.upload_enabled = flag;
    }

    /// Makes a ping known.
    pub fn register_ping_type(&mut self, ping: PingType)
        ensures
            final(self).ping_registry@ == old(self).ping_registry@.push(ping),
            final(self).upload_enabled == old(self).upload_enabled,
            final(self).storage == old(self).storage,
            final(self).start_time == old(self).start_time,
            final(self).debug_view_tag == old(self).debug_view_tag,
            final(self).source_tags == old(self).source_tags,
            final(self).experiments == old(self).experiments,
            final(self).label_registry == old(self).label_registry,
            final(self).write_timings == old(self).write_timings,
    {
        self.ping_registry.push(ping);
    }

    /// Whether data is collected for the ping `name`: upload is enabled and
    /// a registered ping of that name is enabled.
    pub open spec fn ping_enabled(&self, name: Seq<char>) -> bool {
        self.upload_enabled && registered_enabled(self.ping_registry@, name)
    }

    /// Whether data is collected for the ping `name`.
    pub fn is_ping_enabled(&self, name: &str) -> (r: bool)
        ensures
            r == self.ping_enabled(name@),
    {
        if !self.upload_enabled {
            return false;
        }
        let mut i: usize = 0;
        while i < self.ping_registry.len()
            invariant
                i <= self.ping_registry@.len(),
                self.upload_enabled,
                forall|j: int|
                    0 <= j < i ==> !((#[trigger] self.ping_registry@[j]).name@ == name@
                        && self.ping_registry@[j].enabled),
            decreases self.ping_registry@.len() - i,
        {
            if self.ping_registry[i].enabled && str_eq(self.ping_registry[i].name.as_str(), name) {
                assert(self.ping_registry@[i as int].name@ == name@ && self.ping_registry@[i as int].enabled);
                return true;
            }
            i += 1;
        }
        false
    }

    /// Sets the tag that marks pings for the debug view.
    pub fn set_debug_view_tag(&mut self, tag: &str)
        ensures
            final(self).debug_view_tag is Some,
            final(self).debug_view_tag->Some_0@ == tag@,
            final(self).upload_enabled == old(self).upload_enabled,
            final(self).storage == old(self).storage,
            final(self).start_time == old(self).start_time,
            final(self).source_tags == old(self).source_tags,
            final(self).ping_registry == old(self).ping_registry,
            final(self).experiments == old(self).experiments,
            final(self).label_registry == old(self).label_registry,
            final(self).write_timings == old(self).write_timings,
    {
        self.debug_view_tag = Some(tag.to_owned());
    }

    /// Notes how long a write to the store took, in nanoseconds.
    pub fn record_write_timing(&mut self, sample: u64)
        ensures
            final(self).write_timings@ == old(self).write_timings@.push(sample),
            final(self).upload_enabled == old(self).upload_enabled,
            final(self).storage == old(self).storage,
            final(self).start_time == old(self).start_time,
            final(self).debug_view_tag == old(self).debug_view_tag,
            final(self).source_tags == old(self).source_tags,
            final(self).ping_registry == old(self).ping_registry,
            final(self).experiments == old(self).experiments,
            final(self).label_registry == old(self).label_registry,
    {
        self.write_timings.push(sample);
    }

    /// Takes the write timings that were noted since they were last taken,
    /// in their order, and leaves none behind.
    pub fn take_write_timings(&mut self) -> (r: Vec<u64>)
        ensures
            r@ == old(self).write_timings@,
            final(self).write_timings@.len() == 0,
            final(self).upload_enabled == old(self).upload_enabled,
            final(self).storage == old(self).storage,
            final(self).start_time == old(self).start_time,
            final(self).debug_view_tag == old(self).debug_view_tag,
            final(self).source_tags == old(self).source_tags,
            final(self).ping_registry == old(self).ping_registry,
            final(self).experiments == old(self).experiments,
            final(self).label_registry == old(self).label_registry,
    {
        let mut taken: Vec<u64> = Vec::new();
        core::mem::swap(&mut self.write_timings, &mut taken);
        taken
    }

    /// Sets the snapshot of the experiments that the client takes part in.
    pub fn set_experiments(&mut self, experiments: Json)
        ensures
            final(self).experiments == Some(experiments),
            final(self).upload_enabled == old(self).upload_enabled,
            final(self).storage == old(self).storage,
            final(self).start_time == old(self).start_time,
            final(self).debug_view_tag == old(self).debug_view_tag,
            final(self).source_tags == old(self).source_tags,
            final(self).ping_registry == old(self).ping_registry,
            final(self).label_registry == old(self).label_registry,
            final(self).write_timings == old(self).write_timings,
    {
        self.experiments = Some(experiments);
    }

    /// Sets the tags that name the source of pings.
    pub fn set_source_tags(&mut self, tags: Vec<String>)
        ensures
            final(self).source_tags == Some(tags),
            final(self).upload_enabled == old(self).upload_enabled,
            final(self).storage == old(self).storage,
            final(self).start_time == old(self).start_time,
            final(self).debug_view_tag == old(self).debug_view_tag,
            final(self).ping_registry == old(self).ping_registry,
            final(self).experiments == old(self).experiments,
            final(self).label_registry == old(self).label_registry,
            final(self).write_timings == old(self).write_timings,
    {
        self.source_tags = Some(tags);
    }
}

} // verus!
