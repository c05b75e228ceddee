//! The queue of pending pings: the text that a ping is stored as, how that
//! text is read back, and which stored pings a clean-up removes.

use crate::ping::{opt_view, pairs_view, Ping, PingMaker};
use crate::text::{
    concat3, copy_strings, first_position, lemma_first_position_is, split, split_once, split_text,
    str_eq, substring, chars_of, views,
};
use crate::upload::{
    headers_map, lemma_metadata_round_trip, metadata_json, metadata_of_text, process_metadata,
    MetadataModel, PingMetadata,
};
use crate::wire::{json_parse, json_text};
use vstd::prelude::*;

verus! {

/// The directory of the pings that wait for upload.
pub const PENDING_PINGS_DIRECTORY: &'static str = "pending_pings";

/// The directory of the pings that ask for the deletion of the client's
/// data.
pub const DELETION_REQUEST_PINGS_DIRECTORY: &'static str = "deletion_request_pings";

/// The directory in which a ping is written before it is published.
pub const TEMPORARY_DIRECTORY: &'static str = "tmp";

/// The name of the ping that asks for the deletion of the client's data.
pub const DELETION_REQUEST_PING: &'static str = "deletion-request";

/// The text of a stored ping: the upload path, the payload and the
/// metadata, each on a line of its own.
pub open spec fn record_text(url_path: Seq<char>, payload: Seq<char>, metadata: Seq<char>) -> Seq<char> {
    url_path + seq!['\n'] + payload + seq!['\n'] + metadata + seq!['\n']
}

/// The first line of a text and what follows it; nothing for the empty
/// text. A line ends before a line feed, and before a carriage return that
/// stands before that line feed.
pub open spec fn first_line(text: Seq<char>) -> Option<(Seq<char>, Seq<char>)> {
    if text.len() == 0 {
        None
    } else {
        let p = first_position(text, '\n');
        if p < text.len() {
            let line = text.take(p);
            Some(
                (
                    if line.len() > 0 && line.last() == '\r' {
                        line.drop_last()
                    } else {
                        line
                    },
                    text.skip(p + 1),
                ),
            )
        } else {
            Some((text, Seq::empty()))
        }
    }
}

/// The upload path, the payload and the metadata, where there is any, that
/// a stored text holds on its first three lines; nothing where the text has
/// fewer than two lines.
pub open spec fn record_of(text: Seq<char>) -> Option<(Seq<char>, Seq<char>, Option<Seq<char>>)> {
    match first_line(text) {
        Some((url_path, after_path)) => match first_line(after_path) {
            Some((payload, after_payload)) => Some(
                (
                    url_path,
                    payload,
                    match first_line(after_payload) {
                        Some((metadata, _)) => Some(metadata),
                        None => None,
                    },
                ),
            ),
            None => None,
        },
        None => None,
    }
}

/// The ping name that an upload path holds: its fourth piece between
/// slashes, or the empty name where it has fewer pieces.
pub open spec fn name_from_path(url_path: Seq<char>) -> Seq<char> {
    let parts = split_text(url_path, '/');
    if parts.len() > 3 {
        parts[3]
    } else {
        Seq::empty()
    }
}

/// The name of a stored ping. Without a metadata line it is the name that
/// the upload path holds. With one, it is the name that the metadata gives,
/// or the name that the upload path holds where the metadata gives none;
/// a metadata line that cannot be read gives the ping no name.
pub open spec fn pending_name(url_path: Seq<char>, metadata: Option<Seq<char>>) -> Option<Seq<char>> {
    match metadata {
        Some(text) => match metadata_of_text(text) {
            Some(MetadataModel { ping_name: Some(name), .. }) => Some(name),
            Some(_) => Some(name_from_path(url_path)),
            None => None,
        },
        None => Some(name_from_path(url_path)),
    }
}

/// The names of a list of pings.
pub open spec fn names_view(names: Seq<&str>) -> Seq<Seq<char>> {
    Seq::new(names.len(), |i: int| names[i]@)
}

/// Whether a clean-up for the pings `names` removes the stored text: it
/// holds a ping, the ping has a name and the name is among `names`. A text
/// of fewer than two lines, or with a metadata line that cannot be read, is
/// left alone.
pub open spec fn is_cleared(text: Seq<char>, names: Seq<Seq<char>>) -> bool {
    match record_of(text) {
        Some((url_path, _, metadata)) => match pending_name(url_path, metadata) {
            Some(name) => names.contains(name),
            None => false,
        },
        None => false,
    }
}

/// The metadata that is stored with a ping.
pub open spec fn ping_metadata(ping: Ping) -> MetadataModel {
    MetadataModel {
        body_has_info_sections: Some(ping.includes_info_sections),
        ping_name: Some(ping.name@),
        uploader_capabilities: Some(views(ping.uploader_capabilities@)),
        headers: Some(headers_map(pairs_view(ping.headers@))),
    }
}

/// The text of a stored ping.
pub fn frame_record(url_path: &str, payload: &str, metadata: &str) -> (r: String)
    ensures
        r@ == record_text(url_path@, payload@, metadata@),
{
    let mut s = concat3(url_path, "\n", payload);
    s.append("\n");
    s.append(metadata);
    s.append("\n");
    proof {
        reveal_strlit("\n");
        assert("\n"@ =~= seq!['\n']);
    }
    s
}

/// A stored text is read back as what it was written from, if the upload
/// path, the payload and the metadata hold no line feed and end with no
/// carriage return.
pub proof fn lemma_record_round_trip(url_path: Seq<char>, payload: Seq<char>, metadata: Seq<char>)
    requires
        !url_path.contains('\n'),
        !payload.contains('\n'),
        !metadata.contains('\n'),
        url_path.len() > 0 ==> url_path.last() != '\r',
        payload.len() > 0 ==> payload.last() != '\r',
        metadata.len() > 0 ==> metadata.last() != '\r',
    ensures
        record_of(record_text(url_path, payload, metadata)) == Some((url_path, payload, Some(metadata))),
{
    let t1 = record_text(url_path, payload, metadata);
    let t2 = payload + seq!['\n'] + metadata + seq!['\n'];
    let t3 = metadata + seq!['\n'];
    lemma_line(url_path, t2);
    assert(t1 =~= url_path + seq!['\n'] + t2);
    lemma_line(payload, t3);
    assert(t2 =~= payload + seq!['\n'] + t3);
    lemma_line(metadata, Seq::empty());
    assert(t3 =~= metadata + seq!['\n'] + Seq::<char>::empty());
}

/// Where the metadata line of a stored ping reads back as the JSON value
/// that was written, the four fields of the metadata come back, and the
/// ping is known by its own name.
pub proof fn lemma_stored_metadata_is_read_back(ping: Ping, url_path: Seq<char>)
    ensures
        json_parse(json_text(metadata_json(ping_metadata(ping)))) == Some(
            metadata_json(ping_metadata(ping)),
        ) ==> metadata_of_text(json_text(metadata_json(ping_metadata(ping)))) == Some(
            ping_metadata(ping),
        ) && pending_name(url_path, Some(json_text(metadata_json(ping_metadata(ping))))) == Some(
            ping.name@,
        ),
{
    lemma_metadata_round_trip(ping_metadata(ping));
}

/// A line that is followed by a line feed and more text is the first line
/// of the whole.
proof fn lemma_line(line: Seq<char>, rest: Seq<char>)
    requires
        !line.contains('\n'),
        line.len() > 0 ==> line.last() != '\r',
    ensures
        first_line(line + seq!['\n'] + rest) == Some((line, rest)),
{
    let text = line + seq!['\n'] + rest;
    assert forall|j: int| 0 <= j < line.len() implies text[j] != '\n' by {
        assert(text[j] == line[j]);
        assert(line.contains(line[j]));
    }
    assert(text[line.len() as int] == '\n');
    lemma_first_position_is(text, '\n', line.len() as int);
    assert(text.take(line.len() as int) =~= line);
    assert(text.skip(line.len() as int + 1) =~= rest);
}

/// The first line of a text and what follows it.
pub fn take_line(text: &str) -> (r: Option<(String, String)>)
    ensures
        match r {
            Some((line, rest)) => first_line(text@) == Some((line@, rest@)),
            None => first_line(text@) is None,
        },
{
    if text.unicode_len() == 0 {
        return None;
    }
    proof {
        crate::text::lemma_first_position(text@, '\n');
    }
    match split_once(text, '\n') {
        Some((line, rest)) => {
            let x = chars_of(line.as_str());
            if x.len() > 0 && x[x.len() - 1] == '\r' {
                let stripped = substring(&x, 0, x.len() - 1);
                assert(stripped@ =~= line@.drop_last());
                Some((stripped, rest))
            } else {
                Some((line, rest))
            }
        },
        None => Some((text.to_owned(), String::new())),
    }
}

/// A ping as it is read back from the queue.
#[derive(Debug)]
pub struct PendingRecord {
    /// The path on the server to upload the ping to.
    pub url_path: String,
    /// The payload, as JSON text.
    pub payload: String,
    /// The metadata, as JSON text, where the stored text has a third line.
    pub metadata: Option<String>,
}

/// Reads a stored text back. Gives nothing where the text has fewer than
/// two lines.
pub fn parse_record(text: &str) -> (r: Option<PendingRecord>)
    ensures
        match r {
            Some(record) => record_of(text@) == Some(
                (
                    record.url_path@,
                    record.payload@,
                    match record.metadata {
                        Some(m) => Some(m@),
                        None => None,
                    },
                ),
            ),
            None => record_of(text@) is None,
        },
{
    let (url_path, after_path) = match take_line(text) {
        Some(x) => x,
        None => {
            return None;
        },
    };
    let (payload, after_payload) = match take_line(after_path.as_str()) {
        Some(x) => x,
        None => {
            return None;
        },
    };
    let metadata = match take_line(after_payload.as_str()) {
        Some((line, _)) => Some(line),
        None => None,
    };
    Some(PendingRecord { url_path, payload, metadata })
}

impl PingMaker {
    /// The directory below the data path that a ping is stored in: a
    /// directory of its own for the ping that asks for deletion, the
    /// directory of pending pings for any other.
    pub fn pings_dir_name(&self, ping_type: Option<&str>) -> (r: &'static str)
        ensures
            r@ == (if ping_type matches Some(name) && name@ == DELETION_REQUEST_PING@ {
                DELETION_REQUEST_PINGS_DIRECTORY@
            } else {
                PENDING_PINGS_DIRECTORY@
            }),
    {
        match ping_type {
            Some(name) => if str_eq(name, DELETION_REQUEST_PING) {
                DELETION_REQUEST_PINGS_DIRECTORY
            } else {
                PENDING_PINGS_DIRECTORY
            },
            None => PENDING_PINGS_DIRECTORY,
        }
    }

    /// The text that a ping is stored as: its upload path, its payload as
    /// JSON text and its metadata as JSON text. Where the upload path holds
    /// no line feed and ends with no carriage return, the text is read back
    /// as these three.
    pub fn ping_record(&self, ping: &Ping) -> (r: String)
        ensures
            r@ == record_text(
                ping.url_path@,
                json_text(ping.content@),
                json_text(metadata_json(ping_metadata(*ping))),
            ),
            !ping.url_path@.contains('\n') && (ping.url_path@.len() > 0 ==> ping.url_path@.last()
                != '\r') ==> record_of(r@) == Some(
                (
                    ping.url_path@,
                    json_text(ping.content@),
                    Some(json_text(metadata_json(ping_metadata(*ping)))),
                ),
            ),
    {
        let payload = ping.content.to_text();
        let metadata = PingMetadata {
            headers: Some(copy_pairs(&ping.headers)),
            body_has_info_sections: Some(ping.includes_info_sections),
            ping_name: Some(ping.name.to_owned()),
            uploader_capabilities: Some(copy_strings(&ping.uploader_capabilities)),
        };
        assert(metadata@ == ping_metadata(*ping));
        let written = metadata.to_json().to_text();
        proof {
            if !ping.url_path@.contains('\n') && (ping.url_path@.len() > 0 ==> ping.url_path@.last()
                != '\r') {
                if payload@.len() > 0 {
                    assert(payload@.contains(payload@[payload@.len() - 1]));
                }
                if written@.len() > 0 {
                    assert(written@.contains(written@[written@.len() - 1]));
                }
                lemma_record_round_trip(ping.url_path@, payload@, written@);
            }
        }
        frame_record(ping.url_path, payload.as_str(), written.as_str())
    }

    /// The name of a stored ping, or nothing where its metadata line cannot
    /// be read. The name is the one that the metadata gives; without a
    /// metadata line, or with metadata that gives no name, it is the name
    /// that the upload path holds.
    pub fn pending_ping_name(&self, url_path: &str, metadata: Option<&str>) -> (r: Option<String>)
        ensures
            match r {
                Some(name) => pending_name(url_path@, opt_view(metadata)) == Some(name@),
                None => pending_name(url_path@, opt_view(metadata)) is None,
            },
    {
        let given = match metadata {
            Some(text) => match process_metadata(text) {
                Some(parsed) => parsed.ping_name,
                None => {
                    return None;
                },
            },
            None => None,
        };
        match given {
            Some(name) => Some(name),
            None => {
                let parts = split(url_path, '/');
                if parts.len() > 3 {
                    Some(parts[3].clone())
                } else {
                    Some(String::new())
                }
            },
        }
    }

    /// Whether a clean-up for the pings `ping_names` removes the pending
    /// ping that is stored as `text`.
    pub fn is_pending_ping_of(&self, text: &str, ping_names: &[&str]) -> (r: bool)
        ensures
            r == is_cleared(text@, names_view(ping_names@)),
    {
        let record = match parse_record(text) {
            Some(r) => r,
            None => {
                return false;
            },
        };
        let name = match self.pending_ping_name(
            record.url_path.as_str(),
            match &record.metadata {
                Some(m) => Some(m.as_str()),
                None => None,
            },
        ) {
            Some(name) => name,
            None => {
                return false;
            },
        };
        let mut i: usize = 0;
        while i < ping_names.len()
            invariant
                i <= ping_names@.len(),
                record_of(text@) matches Some((url_path, _, metadata)) && pending_name(url_path, metadata)
                    == Some(name@),
                forall|j: int| 0 <= j < i ==> names_view(ping_names@)[j] != name@,
            decreases ping_names@.len() - i,
        {
            if str_eq(ping_names[i], name.as_str()) {
                assert(names_view(ping_names@)[i as int] == name@);
                return true;
            }
            i += 1;
        }
        false
    }
}

/// A copy of a list of pairs of strings.
fn copy_pairs(pairs: &Vec<(String, String)>) -> (r: Vec<(String, String)>)
    ensures
        pairs_view(r@) == pairs_view(pairs@),
{
    let mut out: Vec<(String, String)> = Vec::new();
    let mut i: usize = 0;
    while i < pairs.len()
        invariant
            i <= pairs@.len(),
            out@.len() == i,
            forall|j: int|
                0 <= j < i ==> (#[trigger] out@[j]).0@ == pairs@[j].0@ && out@[j].1@ == pairs@[j].1@,
        decreases pairs@.len() - i,
    {
        out.push((pairs[i].0.clone(), pairs[i].1.clone()));
        i += 1;
    }
    assert(pairs_view(out@) =~= pairs_view(pairs@));
    out
}

} // verus!
