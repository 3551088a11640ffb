//! The decisions of the event loop: which path an event concerns, what kind
//! of event it is, what gets logged and shown, and whether the directory to
//! watch may be watched at all.
use vstd::prelude::*;
use vstd::string::*;
use crate::event_file::{save_dir, spec_save_dir, log_name};
use crate::path::{
    has_root, join_path, lemma_join_starts_with, path_starts_with, spec_join,
    spec_path_starts_with,
};
use crate::watcher::WatchTable;

verus! {

/// inotify event bits (Linux ABI): file modified.
pub const IN_MODIFY: u32 = 0x0000_0002;

/// File or directory moved out of the watched directory.
pub const IN_MOVED_FROM: u32 = 0x0000_0040;

/// File or directory moved into the watched directory.
pub const IN_MOVED_TO: u32 = 0x0000_0080;

/// File or directory created.
pub const IN_CREATE: u32 = 0x0000_0100;

/// File or directory deleted.
pub const IN_DELETE: u32 = 0x0000_0200;

/// The event concerns a directory.
pub const IN_ISDIR: u32 = 0x4000_0000;

/// What the monitor does about one event.
pub enum EventAction {
    DirCreated,
    DirDeleted,
    DirMovedFrom,
    DirMovedTo,
    FileModified,
    FileDeleted,
    FileCreated,
    FileMovedFrom,
    FileMovedTo,
    Ignored,
}

/// An event acts only when its mask is exactly one kind of change, with the
/// directory bit for a directory and without it for a file.
pub open spec fn spec_classify_event(mask: u32) -> EventAction {
    if mask == IN_ISDIR | IN_CREATE {
        EventAction::DirCreated
    } else if mask == IN_ISDIR | IN_DELETE {
        EventAction::DirDeleted
    } else if mask == IN_ISDIR | IN_MOVED_FROM {
        EventAction::DirMovedFrom
    } else if mask == IN_ISDIR | IN_MOVED_TO {
        EventAction::DirMovedTo
    } else if mask == IN_MODIFY {
        EventAction::FileModified
    } else if mask == IN_DELETE {
        EventAction::FileDeleted
    } else if mask == IN_CREATE {
        EventAction::FileCreated
    } else if mask == IN_MOVED_FROM {
        EventAction::FileMovedFrom
    } else if mask == IN_MOVED_TO {
        EventAction::FileMovedTo
    } else {
        EventAction::Ignored
    }
}

/// The kind of an event given its mask: for a directory the mask without the
/// directory bit must be one kind of change, for a file the mask itself.
pub fn classify_event(mask: u32) -> (action: EventAction)
    ensures
        action == spec_classify_event(mask),
{
    proof {
        assert(IN_ISDIR & (IN_ISDIR | IN_CREATE) != 0) by (bit_vector);
        assert(IN_ISDIR & (IN_ISDIR | IN_DELETE) != 0) by (bit_vector);
        assert(IN_ISDIR & (IN_ISDIR | IN_MOVED_FROM) != 0) by (bit_vector);
        assert(IN_ISDIR & (IN_ISDIR | IN_MOVED_TO) != 0) by (bit_vector);
        assert(mask & IN_ISDIR != 0 ==> ((IN_ISDIR ^ mask == IN_CREATE) <==> mask == IN_ISDIR | IN_CREATE)) by (bit_vector);
        assert(mask & IN_ISDIR != 0 ==> ((IN_ISDIR ^ mask == IN_DELETE) <==> mask == IN_ISDIR | IN_DELETE)) by (bit_vector);
        assert(mask & IN_ISDIR != 0 ==> ((IN_ISDIR ^ mask == IN_MOVED_FROM) <==> mask == IN_ISDIR | IN_MOVED_FROM)) by (bit_vector);
        assert(mask & IN_ISDIR != 0 ==> ((IN_ISDIR ^ mask == IN_MOVED_TO) <==> mask == IN_ISDIR | IN_MOVED_TO)) by (bit_vector);
        assert(mask & IN_ISDIR == 0 ==> (mask != IN_ISDIR | IN_CREATE && mask != IN_ISDIR | IN_DELETE
            && mask != IN_ISDIR | IN_MOVED_FROM && mask != IN_ISDIR | IN_MOVED_TO)) by (bit_vector);
        assert(mask & IN_ISDIR != 0 ==> (mask != IN_MODIFY && mask != IN_DELETE && mask != IN_CREATE
            && mask != IN_MOVED_FROM && mask != IN_MOVED_TO)) by (bit_vector);
    }
    if mask & IN_ISDIR != 0 {
        let flag = IN_ISDIR ^ mask;
        if flag == IN_CREATE {
            EventAction::DirCreated
        } else if flag == IN_DELETE {
            EventAction::DirDeleted
        } else if flag == IN_MOVED_FROM {
            EventAction::DirMovedFrom
        } else if flag == IN_MOVED_TO {
            EventAction::DirMovedTo
        } else {
            EventAction::Ignored
        }
    } else if mask == IN_MODIFY {
        EventAction::FileModified
    } else if mask == IN_DELETE {
        EventAction::FileDeleted
    } else if mask == IN_CREATE {
        EventAction::FileCreated
    } else if mask == IN_MOVED_FROM {
        EventAction::FileMovedFrom
    } else if mask == IN_MOVED_TO {
        EventAction::FileMovedTo
    } else {
        EventAction::Ignored
    }
}

/// The word that names a file event in the log and in notifications.
pub open spec fn spec_file_label(action: EventAction) -> Option<Seq<char>> {
    match action {
        EventAction::FileModified => Some(seq!['M', 'o', 'd', 'i', 'f', 'i', 'e', 'd']),
        EventAction::FileDeleted => Some(seq!['D', 'e', 'l', 'e', 't', 'e', 'd']),
        EventAction::FileCreated => Some(seq!['C', 'r', 'e', 'a', 't', 'e', 'd']),
        EventAction::FileMovedFrom => Some(seq!['M', 'o', 'v', 'e', 'd', '_', 'f', 'r', 'o', 'm']),
        EventAction::FileMovedTo => Some(seq!['M', 'o', 'v', 'e', 'd', '_', 't', 'o']),
        _ => None,
    }
}

/// The line appended to a file's log: `<time> : <Label> file.` and a newline.
pub open spec fn spec_log_line(formatted_time: Seq<char>, label: Seq<char>) -> Seq<char> {
    formatted_time + seq![' ', ':', ' '] + label + seq![' ', 'f', 'i', 'l', 'e', '.', '\n']
}

/// The first line of a notification: `<Label> file :` and a newline; the
/// path follows it.
pub open spec fn spec_popup_heading(label: Seq<char>) -> Seq<char> {
    label + seq![' ', 'f', 'i', 'l', 'e', ' ', ':', '\n']
}

/// The file events after which the file itself is checked against its copy.
pub open spec fn spec_checks_file(action: EventAction) -> bool {
    action is FileModified || action is FileCreated || action is FileMovedTo
}

/// The five kinds of file event.
pub open spec fn is_file_event(action: EventAction) -> bool {
    ||| action is FileModified
    ||| action is FileDeleted
    ||| action is FileCreated
    ||| action is FileMovedFrom
    ||| action is FileMovedTo
}

/// The word each file event is known by, written out.
pub open spec fn event_word(action: EventAction) -> Seq<char> {
    match action {
        EventAction::FileModified => seq!['M', 'o', 'd', 'i', 'f', 'i', 'e', 'd'],
        EventAction::FileDeleted => seq!['D', 'e', 'l', 'e', 't', 'e', 'd'],
        EventAction::FileCreated => seq!['C', 'r', 'e', 'a', 't', 'e', 'd'],
        EventAction::FileMovedFrom => seq!['M', 'o', 'v', 'e', 'd', '_', 'f', 'r', 'o', 'm'],
        _ => seq!['M', 'o', 'v', 'e', 'd', '_', 't', 'o'],
    }
}

/// Only file events are logged and shown; each is logged as
/// `<time> : <word> file.` and shown under `<word> file :`, where the word
/// names the event that occurred (`Created` for a created file, and so on).
/// The log line and the heading of one event carry the same word.
pub proof fn lemma_file_event_texts(action: EventAction, formatted_time: Seq<char>)
    ensures
        spec_file_label(action) is Some <==> is_file_event(action),
        is_file_event(action) ==> {
            let word = event_word(action);
            &&& spec_file_label(action) == Some(word)
            &&& spec_log_line(formatted_time, spec_file_label(action)->0) == formatted_time
                + seq![' ', ':', ' '] + word + seq![' ', 'f', 'i', 'l', 'e', '.', '\n']
            &&& spec_popup_heading(spec_file_label(action)->0) == word + seq![' ', 'f', 'i', 'l', 'e', ' ', ':', '\n']
        },
{
}

/// The file itself is checked against its copy exactly after a
/// modification, a creation or a move into the watched tree; never after a
/// deletion, a move out, a directory event or an ignored one.
pub proof fn lemma_checked_events(action: EventAction)
    ensures
        spec_checks_file(action) <==> (action is FileModified || action is FileCreated
            || action is FileMovedTo),
        spec_checks_file(action) ==> is_file_event(action),
{
}

/// Different file events get different notification headings and
/// different log lines.
pub proof fn lemma_file_event_texts_distinct(a: EventAction, b: EventAction, formatted_time: Seq<char>)
    requires
        is_file_event(a),
        is_file_event(b),
        a != b,
    ensures
        spec_popup_heading(spec_file_label(a)->0) != spec_popup_heading(spec_file_label(b)->0),
        spec_log_line(formatted_time, spec_file_label(a)->0) != spec_log_line(
            formatted_time,
            spec_file_label(b)->0,
        ),
{
    let ha = spec_popup_heading(spec_file_label(a)->0);
    let hb = spec_popup_heading(spec_file_label(b)->0);
    let la = spec_log_line(formatted_time, spec_file_label(a)->0);
    let lb = spec_log_line(formatted_time, spec_file_label(b)->0);
    let n: int = formatted_time.len() as int;
    if ha.len() == hb.len() {
        if a is FileModified || b is FileModified {
            assert(ha[0] != hb[0] || ha[1] != hb[1] || ha[2] != hb[2]);
        } else if a is FileMovedFrom || b is FileMovedFrom || a is FileMovedTo || b is FileMovedTo {
            assert(ha[6] != hb[6] || ha[0] != hb[0]);
        } else {
            assert(ha[0] != hb[0]);
        }
    }
    if la.len() == lb.len() {
        if a is FileModified || b is FileModified {
            assert(la[n + 3] != lb[n + 3] || la[n + 4] != lb[n + 4] || la[n + 5] != lb[n + 5]);
        } else if a is FileMovedFrom || b is FileMovedFrom || a is FileMovedTo || b is FileMovedTo {
            assert(la[n + 9] != lb[n + 9] || la[n + 3] != lb[n + 3]);
        } else {
            assert(la[n + 3] != lb[n + 3]);
        }
    }
}

/// Each action comes from exactly one mask, written out: a file event only
/// from its own bit alone, a directory event only from the directory bit
/// with its kind's bit; every other mask is ignored.
pub proof fn lemma_classify_event_masks(mask: u32)
    ensures
        spec_classify_event(mask) is DirCreated <==> mask == 0x4000_0100,
        spec_classify_event(mask) is DirDeleted <==> mask == 0x4000_0200,
        spec_classify_event(mask) is DirMovedFrom <==> mask == 0x4000_0040,
        spec_classify_event(mask) is DirMovedTo <==> mask == 0x4000_0080,
        spec_classify_event(mask) is FileModified <==> mask == 0x0000_0002,
        spec_classify_event(mask) is FileDeleted <==> mask == 0x0000_0200,
        spec_classify_event(mask) is FileCreated <==> mask == 0x0000_0100,
        spec_classify_event(mask) is FileMovedFrom <==> mask == 0x0000_0040,
        spec_classify_event(mask) is FileMovedTo <==> mask == 0x0000_0080,
        spec_classify_event(mask) is Ignored <==> (mask != 0x4000_0100 && mask != 0x4000_0200
            && mask != 0x4000_0040 && mask != 0x4000_0080 && mask != 0x0000_0002 && mask
            != 0x0000_0200 && mask != 0x0000_0100 && mask != 0x0000_0040 && mask != 0x0000_0080),
{
    assert(IN_ISDIR | IN_CREATE == 0x4000_0100u32) by (bit_vector);
    assert(IN_ISDIR | IN_DELETE == 0x4000_0200u32) by (bit_vector);
    assert(IN_ISDIR | IN_MOVED_FROM == 0x4000_0040u32) by (bit_vector);
    assert(IN_ISDIR | IN_MOVED_TO == 0x4000_0080u32) by (bit_vector);
}

impl EventAction {
    /// Whether the file the event names is to be checked (registered or
    /// diffed) before it is logged.
    pub fn checks_file(&self) -> (r: bool)
        ensures
            r == spec_checks_file(*self),
    {
        match self {
            EventAction::FileModified => true,
            EventAction::FileCreated => true,
            EventAction::FileMovedTo => true,
            _ => false,
        }
    }

    /// The label of a file event; `None` for directory events and ignored
    /// ones, which are neither logged nor shown.
    pub fn file_label(&self) -> (r: Option<&'static str>)
        ensures
            match (r, spec_file_label(*self)) {
                (Some(s), Some(l)) => s@ == l,
                (None, None) => true,
                _ => false,
            },
    {
        proof {
            reveal_strlit("Modified");
            reveal_strlit("Deleted");
            reveal_strlit("Created");
            reveal_strlit("Moved_from");
            reveal_strlit("Moved_to");
        }
        match self {
            EventAction::FileModified => Some("Modified"),
            EventAction::FileDeleted => Some("Deleted"),
            EventAction::FileCreated => Some("Created"),
            EventAction::FileMovedFrom => Some("Moved_from"),
            EventAction::FileMovedTo => Some("Moved_to"),
            _ => None,
        }
    }
}

/// The log line for a file event at `formatted_time`; `None` when the event
/// is not a file event.
pub fn log_line(formatted_time: &str, action: &EventAction) -> (r: Option<String>)
    ensures
        match (r, spec_file_label(*action)) {
            (Some(line), Some(l)) => line@ == spec_log_line(formatted_time@, l),
            (None, None) => true,
            _ => false,
        },
{
    match action.file_label() {
        Some(label) => {
            let mut line = formatted_time.to_owned();
            proof {
                reveal_strlit(" : ");
                reveal_strlit(" file.\n");
            }
            line.append(" : ");
            line.append(label);
            line.append(" file.\n");
            Some(line)
        },
        None => None,
    }
}

/// The heading of the notification for a file event; `None` when the event
/// is not a file event.
pub fn popup_heading(action: &EventAction) -> (r: Option<String>)
    ensures
        match (r, spec_file_label(*action)) {
            (Some(h), Some(l)) => h@ == spec_popup_heading(l),
            (None, None) => true,
            _ => false,
        },
{
    match action.file_label() {
        Some(label) => {
            let mut heading = label.to_owned();
            proof {
                reveal_strlit(" file :\n");
            }
            heading.append(" file :\n");
            Some(heading)
        },
        None => None,
    }
}

/// The full path an event concerns: the watched directory of descriptor
/// `wd` joined with the event's name. `None` when the event carries no name
/// or the descriptor is not in the table; such events are skipped.
pub fn resolve_event(watched_dirs: &WatchTable, wd: i32, name: Option<&str>) -> (r: Option<String>)
    ensures
        match name {
            None => r.is_none(),
            Some(n) => if watched_dirs@.contains_key(wd) {
                r matches Some(p) && p@ == spec_join(watched_dirs@[wd], n@)
            } else {
                r.is_none()
            },
        },
{
    let n = match name {
        Some(n) => n,
        None => return None,
    };
    match watched_dirs.get(wd) {
        Some(dir) => Some(join_path(dir.as_str(), n)),
        None => None,
    }
}

/// The path an event resolves to lies below the watched directory it
/// came from, since inotify names entries without separators at their start.
pub proof fn lemma_resolved_path_below_watched_dir(m: Map<i32, Seq<char>>, wd: i32, name: Seq<char>)
    requires
        m.contains_key(wd),
        !has_root(name),
    ensures
        spec_path_starts_with(spec_join(m[wd], name), m[wd]),
{
    lemma_join_starts_with(m[wd], name);
}

/// Where the log of the file at `complete_path` is kept: `log` in its save
/// directory.
pub fn log_path(complete_path: &str) -> (r: String)
    ensures
        r@ == spec_join(spec_save_dir(complete_path@), log_name()),
{
    let dir = save_dir(complete_path);
    proof {
        reveal_strlit("log");
    }
    join_path(dir.as_str(), "log")
}

/// Whether the directory to watch may be watched: both the current
/// directory and the canonical form of the requested one must be known, and
/// the current directory must not lie inside the requested one (the save
/// area would then be watched too).
pub fn check_path(current_dir: Option<&str>, desired_canonical: Option<&str>) -> (r: Result<(), ()>)
    ensures
        r is Ok <==> (current_dir matches Some(c) && desired_canonical matches Some(d)
            && !spec_path_starts_with(c@, d@)),
{
    match current_dir {
        Some(c) => match desired_canonical {
            Some(d) => if path_starts_with(c, d) {
                Err(())
            } else {
                Ok(())
            },
            None => Err(()),
        },
        None => Err(()),
    }
}

} // verus!
