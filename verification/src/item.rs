//! The unified display items: live sessions, recoverable sessions and ranked
//! directories, plus the exact text each one is rendered (and searched) as.

use vstd::prelude::*;

verus! {

/// One entry of the unified, searchable list.
#[derive(Clone)]
pub enum SessionItem {
    /// A live session, shown attached to the directory it matched.
    ExistingSession { name: String, directory: String, is_current: bool },
    /// A terminated session the host can still restore, with the seconds
    /// elapsed since it ended.
    ResurrectableSession { name: String, elapsed_secs: u64 },
    /// A ranked directory and the session name resolved for it.
    Directory { path: String, session_name: String },
}

/// An operation requested on a session.
#[derive(Clone)]
pub enum SessionAction {
    /// Switch to the named session.
    Switch(String),
    /// Kill (or delete, if only recoverable) the named session.
    Kill(String),
}

/// What the host is read-only queried for about one live session.
#[derive(Clone)]
pub struct SessionInfo {
    pub name: String,
    pub is_current_session: bool,
    /// Names of the layouts this session offers.
    pub available_layouts: Vec<String>,
}

impl SessionItem {
    pub fn is_session(&self) -> (r: bool)
        ensures
            r == (self matches SessionItem::ExistingSession { .. }),
    {
        matches!(self, SessionItem::ExistingSession { .. })
    }

    pub fn is_resurrectable_session(&self) -> (r: bool)
        ensures
            r == (self matches SessionItem::ResurrectableSession { .. }),
    {
        matches!(self, SessionItem::ResurrectableSession { .. })
    }
}

/// The mathematical image of one display item.
pub enum ItemV {
    Existing { name: Seq<char>, directory: Seq<char>, is_current: bool },
    Resurrectable { name: Seq<char>, elapsed_secs: u64 },
    Directory { path: Seq<char>, session_name: Seq<char> },
}

impl View for SessionItem {
    type V = ItemV;

    open spec fn view(&self) -> ItemV {
        match self {
            SessionItem::ExistingSession { name, directory, is_current } => ItemV::Existing {
                name: name@,
                directory: directory@,
                is_current: *is_current,
            },
            SessionItem::ResurrectableSession { name, elapsed_secs } => ItemV::Resurrectable {
                name: name@,
                elapsed_secs: *elapsed_secs,
            },
            SessionItem::Directory { path, session_name } => ItemV::Directory {
                path: path@,
                session_name: session_name@,
            },
        }
    }
}

/// The views of an item sequence.
pub open spec fn ivs(items: Seq<SessionItem>) -> Seq<ItemV> {
    items.map_values(|it: SessionItem| it@)
}

/// The text humantime renders for a whole-second duration. It is a pure
/// function of the seconds; writing it out would reproduce humantime's
/// formatter, so the result is only named.
pub uninterp spec fn human_duration_of(secs: u64) -> Seq<char>;

/// Relies on humantime::format_duration: its Display output depends only on
/// the duration handed in.
#[verifier::external_body]
fn format_elapsed(secs: u64) -> (r: String)
    ensures
        r@ == human_duration_of(secs),
{
    humantime::format_duration(core::time::Duration::from_secs(secs)).to_string()
}

/// The canonical rendered text of an item: what the presentation layer shows
/// and what fuzzy search matches against.
pub open spec fn display_text_spec(item: ItemV) -> Seq<char> {
    match item {
        ItemV::Existing { name, directory, is_current } => (if is_current {
            "\u{25cf} "@
        } else {
            "\u{25cb} "@
        }) + name + " ("@ + directory + ")"@,
        ItemV::Resurrectable { name, elapsed_secs } => "\u{21ba} "@ + name + " (created "@
            + human_duration_of(elapsed_secs) + " ago)"@,
        ItemV::Directory { path, .. } => path,
    }
}

/// Builds the canonical rendered text of an item.
pub fn display_text(item: &SessionItem) -> (r: String)
    ensures
        r@ == display_text_spec(item@),
{
    match item {
        SessionItem::ExistingSession { name, directory, is_current } => {
            let mut r = String::new();
            if *is_current {
                r.append("\u{25cf} ");
            } else {
                r.append("\u{25cb} ");
            }
            r.append(name.as_str());
            r.append(" (");
            r.append(directory.as_str());
            r.append(")");
            proof {
                assert(r@ =~= (if *is_current {
                    "\u{25cf} "@
                } else {
                    "\u{25cb} "@
                }) + name@ + " ("@ + directory@ + ")"@);
            }
            r
        },
        SessionItem::ResurrectableSession { name, elapsed_secs } => {
            let human = format_elapsed(*elapsed_secs);
            let mut r = String::new();
            r.append("\u{21ba} ");
            r.append(name.as_str());
            r.append(" (created ");
            r.append(human.as_str());
            r.append(" ago)");
            proof {
                assert(r@ =~= "\u{21ba} "@ + name@ + " (created "@ + human_duration_of(
                    *elapsed_secs,
                ) + " ago)"@);
            }
            r
        },
        SessionItem::Directory { path, .. } => {
            let r = path.clone();
            r
        },
    }
}

} // verus!
