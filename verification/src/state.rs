//! The plugin's own state: configuration, session bookkeeping, the ranked
//! directory set, the search engine, and the unified-item reconciliation that
//! merges live sessions, recoverable sessions and directories into one
//! ordered, searchable list.

use crate::config::Config;
use crate::item::{ivs, ItemV, SessionInfo, SessionItem};
use crate::manager::{increment_result, HostCommand, SessionManager};
use crate::naming::opt_view;
use crate::search::{items_of, result_items, spec_repair, SearchEngine};
use crate::strutil::{
    byte_len, check_positive_int, is_positive_int_str, spec_starts_with, str_contains_char,
    str_eq, str_starts_with,
};
use crate::zoxide::{named_candidates, sort_cands, views_of, CandV, ZoxideDirectory};
use vstd::prelude::*;

verus! {

/// The screens the plugin can show.
#[derive(Clone, Copy, PartialEq, Eq, Structural, Debug)]
pub enum ActiveScreen {
    /// The unified list of directories and sessions.
    Main,
    /// The session-creation flow.
    NewSession,
}

/// A key event, reduced to what the logic reads.
#[derive(Clone, Copy, PartialEq, Eq, Structural, Debug)]
pub enum Key {
    Up,
    Down,
    Enter,
    CtrlEnter,
    Delete,
    Backspace,
    Esc,
    /// A plain printable character.
    Char(char),
    /// A character pressed with Control held.
    CtrlChar(char),
    /// Any other key.
    Other,
}

/// Work the host must perform on the library's behalf after a key event.
pub enum HostAction {
    /// Hide the plugin pane.
    HideSelf,
    /// A session operation (switch, kill, delete).
    Session(HostCommand),
    /// Re-run the directory-ranking source and feed its output back.
    FetchDirectories,
    /// Switch to (or create) a session with a working directory.
    SwitchWithCwd { name: String, folder: Option<String> },
    /// Switch to (or create) a session with the named layout.
    SwitchWithLayout { name: String, layout: String, folder: Option<String> },
    /// Seed the session-creation form with this name.
    SetNewSessionName(String),
    /// Seed the session-creation form with this folder.
    SetNewSessionFolder(Option<String>),
    /// Move the session-creation form to layout selection.
    AdvanceToLayoutSelection,
    /// Confirm the session-creation form's current choice.
    NewSessionSelection,
    /// Create a session straight from the form with the default layout.
    QuickCreateFromNewSession,
    /// Escape pressed inside the session-creation flow.
    NewSessionEsc,
    /// Open the folder picker for the new session.
    LaunchFilepicker,
    /// Hand the key to the session-creation form.
    DelegateKey(Key),
}

/// Is `name` the incremented form `base + separator + positive integer`?
pub open spec fn is_incremented_name(name: Seq<char>, base: Seq<char>, sep: Seq<char>) -> bool {
    &&& name.len() > base.len()
    &&& name.take(base.len() as int) == base
    &&& spec_starts_with(name.skip(base.len() as int), sep)
    &&& is_positive_int_str(name.skip(base.len() as int).skip(sep.len() as int))
}

/// Checks the exact-or-incremented matching predicate of reconciliation.
pub fn is_incremented_session(name: &str, base: &str, sep: &str) -> (r: bool)
    ensures
        r == is_incremented_name(name@, base@, sep@),
{
    let nlen = name.unicode_len();
    let blen = base.unicode_len();
    if nlen <= blen {
        return false;
    }
    if !str_starts_with(name, base) {
        return false;
    }
    let rem = name.substring_char(blen, nlen);
    proof {
        assert(rem@ =~= name@.skip(blen as int));
    }
    if !str_starts_with(rem, sep) {
        return false;
    }
    let slen = sep.unicode_len();
    let num = rem.substring_char(slen, nlen - blen);
    proof {
        assert(num@ =~= rem@.skip(slen as int));
    }
    check_positive_int(num)
}

/// Does the session name match this candidate, exactly or incremented?
pub open spec fn matches_cand(name: Seq<char>, c: CandV, sep: Seq<char>) -> bool {
    name == c.name || is_incremented_name(name, c.name, sep)
}

/// The first candidate (in ranking order) the session name matches.
pub open spec fn first_match(dirs: Seq<CandV>, name: Seq<char>, sep: Seq<char>) -> Option<int>
    decreases dirs.len(),
{
    if dirs.len() == 0 {
        None
    } else if matches_cand(name, dirs[0], sep) {
        Some(0)
    } else {
        match first_match(dirs.drop_first(), name, sep) {
            Some(i) => Some(i + 1),
            None => None,
        }
    }
}

proof fn lemma_first_match_at(dirs: Seq<CandV>, name: Seq<char>, sep: Seq<char>, j: int)
    requires
        0 <= j <= dirs.len(),
        forall|u: int| 0 <= u < j ==> !matches_cand(name, #[trigger] dirs[u], sep),
        j < dirs.len() ==> matches_cand(name, dirs[j], sep),
    ensures
        first_match(dirs, name, sep) == if j < dirs.len() {
            Some(j)
        } else {
            None::<int>
        },
    decreases dirs.len(),
{
    if dirs.len() > 0 && j > 0 {
        lemma_first_match_at(dirs.drop_first(), name, sep, j - 1);
    }
}

/// Finds the first candidate the session name matches.
fn find_match(dirs: &Vec<ZoxideDirectory>, name: &str, sep: &str) -> (r: Option<usize>)
    ensures
        match r {
            Some(j) => first_match(views_of(dirs@), name@, sep@) == Some(j as int) && (j as int)
                < dirs@.len(),
            None => first_match(views_of(dirs@), name@, sep@) is None,
        },
{
    let n = dirs.len();
    let mut j: usize = 0;
    while j < n
        invariant
            n == dirs@.len(),
            j <= n,
            forall|u: int|
                0 <= u < j ==> !matches_cand(name@, #[trigger] views_of(dirs@)[u], sep@),
        decreases n - j,
    {
        let hit = str_eq(name, dirs[j].session_name.as_str()) || is_incremented_session(
            name,
            dirs[j].session_name.as_str(),
            sep,
        );
        proof {
            assert(views_of(dirs@)[j as int] == dirs@[j as int]@);
        }
        if hit {
            proof {
                lemma_first_match_at(views_of(dirs@), name@, sep@, j as int);
            }
            return Some(j);
        }
        j = j + 1;
    }
    proof {
        lemma_first_match_at(views_of(dirs@), name@, sep@, n as int);
    }
    None
}

/// The `ExistingSession` items: one per live session whose name matches a
/// candidate (first match wins), carrying that candidate's directory.
pub open spec fn sessions_part(
    sessions: Seq<SessionInfo>,
    dirs: Seq<CandV>,
    sep: Seq<char>,
) -> Seq<ItemV>
    decreases sessions.len(),
{
    if sessions.len() == 0 {
        Seq::empty()
    } else {
        sessions_part(sessions.drop_last(), dirs, sep) + (match first_match(
            dirs,
            sessions.last().name@,
            sep,
        ) {
            Some(i) => seq![
                ItemV::Existing {
                    name: sessions.last().name@,
                    directory: dirs[i].dir,
                    is_current: sessions.last().is_current_session,
                },
            ],
            None => Seq::empty(),
        })
    }
}

/// The `RecoverableSession` items, by the same matching rule.
pub open spec fn resur_part(
    dead: Seq<(String, u64)>,
    dirs: Seq<CandV>,
    sep: Seq<char>,
) -> Seq<ItemV>
    decreases dead.len(),
{
    if dead.len() == 0 {
        Seq::empty()
    } else {
        resur_part(dead.drop_last(), dirs, sep) + (match first_match(
            dirs,
            dead.last().0@,
            sep,
        ) {
            Some(_) => seq![
                ItemV::Resurrectable { name: dead.last().0@, elapsed_secs: dead.last().1 },
            ],
            None => Seq::empty(),
        })
    }
}

/// One `Directory` item per candidate, unconditionally, in ranking order.
pub open spec fn dirs_part(dirs: Seq<CandV>) -> Seq<ItemV> {
    dirs.map_values(|c: CandV| ItemV::Directory { path: c.dir, session_name: c.name })
}

/// The unified list: matched live sessions, then (when configured) matched
/// recoverable sessions, then every candidate directory.
pub open spec fn combine_spec(
    sessions: Seq<SessionInfo>,
    dead: Seq<(String, u64)>,
    dirs: Seq<CandV>,
    sep: Seq<char>,
    show: bool,
) -> Seq<ItemV> {
    sessions_part(sessions, dirs, sep) + (if show {
        resur_part(dead, dirs, sep)
    } else {
        Seq::empty()
    }) + dirs_part(dirs)
}

proof fn lemma_filter_no_dirs(s: Seq<ItemV>)
    requires
        forall|i: int| 0 <= i < s.len() ==> !(#[trigger] s[i] is Directory),
    ensures
        s.filter(|iv: ItemV| iv is Directory) == Seq::<ItemV>::empty(),
    decreases s.len(),
{
    reveal(Seq::filter);
    if s.len() > 0 {
        lemma_filter_no_dirs(s.drop_last());
    }
}

proof fn lemma_filter_all_dirs(s: Seq<ItemV>)
    requires
        forall|i: int| 0 <= i < s.len() ==> #[trigger] s[i] is Directory,
    ensures
        s.filter(|iv: ItemV| iv is Directory) == s,
    decreases s.len(),
{
    reveal(Seq::filter);
    if s.len() > 0 {
        lemma_filter_all_dirs(s.drop_last());
        assert(s.drop_last().push(s.last()) =~= s);
    }
}

proof fn lemma_sessions_part_no_dirs(sessions: Seq<SessionInfo>, dirs: Seq<CandV>, sep: Seq<char>)
    ensures
        forall|i: int|
            0 <= i < sessions_part(sessions, dirs, sep).len() ==> !(#[trigger] sessions_part(
                sessions,
                dirs,
                sep,
            )[i] is Directory),
    decreases sessions.len(),
{
    if sessions.len() > 0 {
        lemma_sessions_part_no_dirs(sessions.drop_last(), dirs, sep);
    }
}

proof fn lemma_resur_part_no_dirs(dead: Seq<(String, u64)>, dirs: Seq<CandV>, sep: Seq<char>)
    ensures
        forall|i: int|
            0 <= i < resur_part(dead, dirs, sep).len() ==> !(#[trigger] resur_part(
                dead,
                dirs,
                sep,
            )[i] is Directory),
    decreases dead.len(),
{
    if dead.len() > 0 {
        lemma_resur_part_no_dirs(dead.drop_last(), dirs, sep);
    }
}

/// Reconciliation cardinality: whatever sessions matched, the unified list
/// holds exactly the `Directory` items of `dirs_part`, one per candidate and
/// in order — `dirs.len()` of them.
pub proof fn lemma_reconciliation_directory_items(
    sessions: Seq<SessionInfo>,
    dead: Seq<(String, u64)>,
    dirs: Seq<CandV>,
    sep: Seq<char>,
    show: bool,
)
    ensures
        combine_spec(sessions, dead, dirs, sep, show).filter(|iv: ItemV| iv is Directory)
            == dirs_part(dirs),
        combine_spec(sessions, dead, dirs, sep, show).filter(|iv: ItemV| iv is Directory).len()
            == dirs.len(),
{
    let pred = |iv: ItemV| iv is Directory;
    let a = sessions_part(sessions, dirs, sep);
    let b = if show {
        resur_part(dead, dirs, sep)
    } else {
        Seq::<ItemV>::empty()
    };
    let c = dirs_part(dirs);
    Seq::filter_distributes_over_add(a + b, c, pred);
    Seq::filter_distributes_over_add(a, b, pred);
    lemma_sessions_part_no_dirs(sessions, dirs, sep);
    lemma_filter_no_dirs(a);
    if show {
        lemma_resur_part_no_dirs(dead, dirs, sep);
    }
    lemma_filter_no_dirs(b);
    assert(forall|i: int| 0 <= i < c.len() ==> #[trigger] c[i] is Directory);
    lemma_filter_all_dirs(c);
    assert((Seq::<ItemV>::empty() + Seq::<ItemV>::empty()) + c =~= c);
}

/// The index of the first session the host marks current.
pub open spec fn first_current(sessions: Seq<SessionInfo>) -> Option<int>
    decreases sessions.len(),
{
    if sessions.len() == 0 {
        None
    } else if sessions[0].is_current_session {
        Some(0)
    } else {
        match first_current(sessions.drop_first()) {
            Some(i) => Some(i + 1),
            None => None,
        }
    }
}

proof fn lemma_first_current_at(sessions: Seq<SessionInfo>, j: int)
    requires
        0 <= j <= sessions.len(),
        forall|u: int| 0 <= u < j ==> !(#[trigger] sessions[u]).is_current_session,
        j < sessions.len() ==> sessions[j].is_current_session,
    ensures
        first_current(sessions) == if j < sessions.len() {
            Some(j)
        } else {
            None::<int>
        },
    decreases sessions.len(),
{
    if sessions.len() > 0 && j > 0 {
        lemma_first_current_at(sessions.drop_first(), j - 1);
    }
}

/// The plugin's whole state, owned by one engine instance and mutated only by
/// the discrete input events the host delivers.
pub struct PluginState {
    /// Plugin configuration.
    config: Config,
    /// Session bookkeeping.
    session_manager: SessionManager,
    /// Ranked directories, names resolved, in ranking order.
    zoxide_directories: Vec<ZoxideDirectory>,
    /// The fuzzy selection engine.
    search_engine: SearchEngine,
    /// Which screen is showing.
    active_screen: ActiveScreen,
    /// A transient error overlay, dismissed by the next key.
    error: Option<String>,
    /// The current session's name, as last reported.
    current_session_name: Option<String>,
    /// Request ids of in-flight folder-picker calls.
    request_ids: Vec<String>,
    /// The cursor over the full list (used when not searching).
    selected_index: Option<usize>,
    /// The home directory, stripped from paths when no base paths are set.
    home_dir: Option<String>,
}

impl PluginState {
    pub closed spec fn spec_config(&self) -> Config {
        self.config
    }

    pub closed spec fn spec_manager(&self) -> SessionManager {
        self.session_manager
    }

    pub closed spec fn spec_dirs(&self) -> Seq<ZoxideDirectory> {
        self.zoxide_directories@
    }

    pub closed spec fn spec_engine(&self) -> SearchEngine {
        self.search_engine
    }

    pub closed spec fn spec_screen(&self) -> ActiveScreen {
        self.active_screen
    }

    pub closed spec fn spec_error(&self) -> Option<String> {
        self.error
    }

    pub closed spec fn spec_current(&self) -> Option<String> {
        self.current_session_name
    }

    pub closed spec fn spec_request_ids(&self) -> Seq<String> {
        self.request_ids@
    }

    pub closed spec fn spec_selected(&self) -> Option<usize> {
        self.selected_index
    }

    pub closed spec fn spec_home(&self) -> Option<String> {
        self.home_dir
    }

    /// Well-formedness: the embedded search engine is well-formed.
    pub open spec fn inv(&self) -> bool {
        self.spec_engine().inv()
    }

    /// The unified list this state reconciles to.
    pub open spec fn combined_view(&self) -> Seq<ItemV> {
        combine_spec(
            self.spec_manager().spec_sessions(),
            self.spec_manager().spec_resurrectable(),
            views_of(self.spec_dirs()),
            self.spec_config().session_separator@,
            self.spec_config().show_resurrectable_sessions,
        )
    }

    /// The view of the item the cursor rests on, if any.
    pub open spec fn spec_selected_item(&self) -> Option<ItemV> {
        if self.spec_engine().spec_searching() {
            match self.spec_engine().spec_selected() {
                Some(i) => if (i as int) < self.spec_engine().spec_results().len() {
                    Some(self.spec_engine().spec_results()[i as int].item@)
                } else {
                    None
                },
                None => None,
            }
        } else {
            match self.spec_selected() {
                Some(i) => if (i as int) < self.combined_view().len() {
                    Some(self.combined_view()[i as int])
                } else {
                    None
                },
                None => None,
            }
        }
    }

    /// A fresh state: default configuration, nothing known yet.
    pub fn new() -> (s: PluginState)
        ensures
            s.inv(),
            s.spec_config().session_separator@ == "."@,
            s.spec_config().base_paths@.len() == 0,
            s.spec_config().default_layout is None,
            !s.spec_config().show_resurrectable_sessions,
            s.spec_manager().spec_sessions().len() == 0,
            s.spec_manager().spec_resurrectable().len() == 0,
            s.spec_manager().spec_pending() is None,
            s.spec_dirs().len() == 0,
            !s.spec_engine().spec_searching(),
            s.spec_engine().spec_results().len() == 0,
            s.spec_screen() == ActiveScreen::Main,
            s.spec_error() is None,
            s.spec_current() is None,
            s.spec_request_ids().len() == 0,
            s.spec_selected() is None,
            s.spec_home() is None,
    {
        PluginState {
            config: Config::default(),
            session_manager: SessionManager::new(),
            zoxide_directories: Vec::new(),
            search_engine: SearchEngine::new(),
            active_screen: ActiveScreen::Main,
            error: None,
            current_session_name: None,
            request_ids: Vec::new(),
            selected_index: None,
            home_dir: None,
        }
    }

    /// Loads the configuration from the host's option pairs.
    pub fn initialize(&mut self, pairs: &Vec<(String, String)>)
        requires
            old(self).inv(),
        ensures
            final(self).inv(),
            final(self).spec_config().session_separator@ == match crate::config::spec_lookup(
                pairs@,
                "session_separator"@,
            ) {
                Some(v) => v,
                None => "."@,
            },
            final(self).spec_config().show_resurrectable_sessions == (crate::config::spec_lookup(
                pairs@,
                "show_resurrectable_sessions"@,
            ) == Some("true"@)),
            final(self).spec_config().base_paths.deep_view() == match crate::config::spec_lookup(
                pairs@,
                "base_paths"@,
            ) {
                Some(v) => crate::config::spec_base_paths(v),
                None => Seq::<Seq<char>>::empty(),
            },
            match crate::config::spec_lookup(pairs@, "default_layout"@) {
                Some(v) => final(self).spec_config().default_layout matches Some(l) && l@ == v,
                None => final(self).spec_config().default_layout is None,
            },
            final(self).spec_manager() == old(self).spec_manager(),
            final(self).spec_dirs() == old(self).spec_dirs(),
            final(self).spec_engine() == old(self).spec_engine(),
            final(self).spec_home() == old(self).spec_home(),
    {
        self.config = Config::from_zellij_config(pairs);
    }

    /// Records the home directory the host runs under.
    pub fn set_home_dir(&mut self, home: Option<String>)
        requires
            old(self).inv(),
        ensures
            final(self).inv(),
            final(self).spec_home() == home,
            final(self).spec_config() == old(self).spec_config(),
            final(self).spec_manager() == old(self).spec_manager(),
            final(self).spec_dirs() == old(self).spec_dirs(),
            final(self).spec_engine() == old(self).spec_engine(),
    {
        self.home_dir = home;
    }

    /// Returns to the main screen.
    pub fn return_to_main(&mut self)
        requires
            old(self).inv(),
        ensures
            final(self).inv(),
            final(self).spec_screen() == ActiveScreen::Main,
            core_unchanged(*old(self), *final(self)),
            final(self).spec_engine() == old(self).spec_engine(),
            final(self).spec_selected() == old(self).spec_selected(),
            final(self).spec_error() == old(self).spec_error(),
    {
        self.active_screen = ActiveScreen::Main;
    }

    /// Shows a transient error overlay.
    pub fn set_error(&mut self, error: String)
        requires
            old(self).inv(),
        ensures
            final(self).inv(),
            final(self).spec_error() == Some(error),
            core_unchanged(*old(self), *final(self)),
            final(self).spec_engine() == old(self).spec_engine(),
            final(self).spec_selected() == old(self).spec_selected(),
            final(self).spec_screen() == old(self).spec_screen(),
    {
        self.error = Some(error);
    }

    /// The current error overlay, if any.
    pub fn error(&self) -> (r: Option<&String>)
        ensures
            match r {
                Some(e) => self.spec_error() == Some(*e),
                None => self.spec_error() is None,
            },
    {
        self.error.as_ref()
    }

    pub fn config(&self) -> (r: &Config)
        ensures
            *r == self.spec_config(),
    {
        &self.config
    }

    pub fn active_screen(&self) -> (r: ActiveScreen)
        ensures
            r == self.spec_screen(),
    {
        self.active_screen
    }

    pub fn search_engine(&self) -> (r: &SearchEngine)
        ensures
            *r == self.spec_engine(),
    {
        &self.search_engine
    }

    pub fn session_manager(&self) -> (r: &SessionManager)
        ensures
            *r == self.spec_manager(),
    {
        &self.session_manager
    }

    pub fn current_session_name(&self) -> (r: &Option<String>)
        ensures
            *r == self.spec_current(),
    {
        &self.current_session_name
    }

    /// Is this an id of an in-flight folder-picker request?
    pub fn is_valid_request_id(&self, request_id: &str) -> (r: bool)
        ensures
            r == (exists|i: int|
                0 <= i < self.spec_request_ids().len() && (
                #[trigger] self.spec_request_ids()[i])@ == request_id@),
    {
        let n = self.request_ids.len();
        let mut i: usize = 0;
        while i < n
            invariant
                n == self.request_ids@.len(),
                i <= n,
                forall|u: int| 0 <= u < i ==> (#[trigger] self.request_ids@[u])@ != request_id@,
            decreases n - i,
        {
            if str_eq(self.request_ids[i].as_str(), request_id) {
                proof {
                    assert((self.spec_request_ids()[i as int])@ == request_id@);
                }
                return true;
            }
            i = i + 1;
        }
        false
    }

    /// Forgets one folder-picker request id.
    pub fn remove_request_id(&mut self, request_id: &str)
        requires
            old(self).inv(),
        ensures
            final(self).inv(),
            final(self).spec_request_ids() == old(self).spec_request_ids().filter(
                |s: String| s@ != request_id@,
            ),
            final(self).spec_config() == old(self).spec_config(),
            final(self).spec_manager() == old(self).spec_manager(),
            final(self).spec_dirs() == old(self).spec_dirs(),
            final(self).spec_engine() == old(self).spec_engine(),
    {
        let ghost orig = self.request_ids@;
        let ghost pred = |s: String| s@ != request_id@;
        let n = self.request_ids.len();
        let mut kept: Vec<String> = Vec::new();
        let mut i: usize = 0;
        proof {
            reveal(Seq::filter);
            assert(orig.take(0).filter(pred) =~= Seq::<String>::empty());
            assert(kept@ =~= Seq::<String>::empty());
        }
        while i < n
            invariant
                n == self.request_ids@.len(),
                orig == self.request_ids@,
                pred == (|s: String| s@ != request_id@),
                i <= n,
                kept@ == orig.take(i as int).filter(pred),
            decreases n - i,
        {
            proof {
                reveal(Seq::filter);
                assert(orig.take(i as int + 1).drop_last() =~= orig.take(i as int));
                assert(orig.take(i as int + 1).last() == orig[i as int]);
            }
            if !str_eq(self.request_ids[i].as_str(), request_id) {
                let ghost pre = kept@;
                kept.push(self.request_ids[i].clone());
                proof {
                    assert(pred(orig[i as int]));
                    assert(kept@ =~= pre.push(orig[i as int]));
                    assert(orig.take(i as int + 1).filter(pred) =~= orig.take(i as int).filter(
                        pred,
                    ).push(orig[i as int]));
                }
            } else {
                proof {
                    assert(!pred(orig[i as int]));
                    assert(orig.take(i as int + 1).filter(pred) =~= orig.take(i as int).filter(
                        pred,
                    ));
                }
            }
            i = i + 1;
        }
        proof {
            assert(orig.take(n as int) =~= orig);
        }
        self.request_ids = kept;
    }

    /// Remembers a folder-picker request id.
    pub fn register_request_id(&mut self, request_id: String)
        requires
            old(self).inv(),
        ensures
            final(self).inv(),
            final(self).spec_request_ids() == old(self).spec_request_ids().push(request_id),
            final(self).spec_config() == old(self).spec_config(),
            final(self).spec_manager() == old(self).spec_manager(),
            final(self).spec_dirs() == old(self).spec_dirs(),
            final(self).spec_engine() == old(self).spec_engine(),
    {
        self.request_ids.push(request_id);
    }

    /// The unified list, reconciled in full: matched live sessions first,
    /// then (when configured) matched recoverable sessions, then one
    /// `Directory` item per candidate.
    pub fn combined_items(&self) -> (r: Vec<SessionItem>)
        ensures
            ivs(r@) == self.combined_view(),
    {
        let ghost dv = views_of(self.zoxide_directories@);
        let sep = self.config.session_separator.as_str();
        let mut items: Vec<SessionItem> = Vec::new();
        let sessions = self.session_manager.sessions();
        let ns = sessions.len();
        let mut i: usize = 0;
        proof {
            assert(ivs(items@) =~= Seq::<ItemV>::empty());
            assert(sessions_part(sessions@.take(0), dv, sep@) =~= Seq::<ItemV>::empty());
        }
        while i < ns
            invariant
                ns == sessions@.len(),
                sessions@ == self.spec_manager().spec_sessions(),
                dv == views_of(self.spec_dirs()),
                sep@ == self.spec_config().session_separator@,
                self.zoxide_directories@ == self.spec_dirs(),
                i <= ns,
                ivs(items@) == sessions_part(sessions@.take(i as int), dv, sep@),
            decreases ns - i,
        {
            proof {
                assert(sessions@.take(i as int + 1).drop_last() =~= sessions@.take(i as int));
                assert(sessions@.take(i as int + 1).last() == sessions@[i as int]);
            }
            match find_match(&self.zoxide_directories, sessions[i].name.as_str(), sep) {
                Some(j) => {
                    let ghost pre = items@;
                    items.push(
                        SessionItem::ExistingSession {
                            name: sessions[i].name.clone(),
                            directory: self.zoxide_directories[j].directory.clone(),
                            is_current: sessions[i].is_current_session,
                        },
                    );
                    proof {
                        assert(ivs(items@) =~= ivs(pre).push(items@[pre.len() as int]@));
                        assert(items@[pre.len() as int]@ == (ItemV::Existing {
                            name: sessions@[i as int].name@,
                            directory: dv[first_match(dv, sessions@[i as int].name@, sep@).unwrap()].dir,
                            is_current: sessions@[i as int].is_current_session,
                        }));
                        assert(ivs(pre).push(items@[pre.len() as int]@) =~= sessions_part(
                            sessions@.take(i as int + 1),
                            dv,
                            sep@,
                        ));
                    }
                },
                None => {
                    proof {
                        assert(sessions_part(sessions@.take(i as int + 1), dv, sep@)
                            =~= sessions_part(sessions@.take(i as int), dv, sep@));
                    }
                },
            }
            i = i + 1;
        }
        proof {
            assert(sessions@.take(ns as int) =~= sessions@);
        }
        let ghost part1 = sessions_part(sessions@, dv, sep@);
        if self.config.show_resurrectable_sessions {
            let dead = self.session_manager.resurrectable_sessions();
            let nd = dead.len();
            let mut k: usize = 0;
            proof {
                assert(resur_part(dead@.take(0), dv, sep@) =~= Seq::<ItemV>::empty());
                assert(ivs(items@) + resur_part(dead@.take(0), dv, sep@) =~= ivs(items@));
            }
            while k < nd
                invariant
                    nd == dead@.len(),
                    dead@ == self.spec_manager().spec_resurrectable(),
                    dv == views_of(self.spec_dirs()),
                    sep@ == self.spec_config().session_separator@,
                    self.zoxide_directories@ == self.spec_dirs(),
                    k <= nd,
                    part1 == sessions_part(
                        self.spec_manager().spec_sessions(),
                        dv,
                        sep@,
                    ),
                    ivs(items@) == part1 + resur_part(dead@.take(k as int), dv, sep@),
                decreases nd - k,
            {
                proof {
                    assert(dead@.take(k as int + 1).drop_last() =~= dead@.take(k as int));
                    assert(dead@.take(k as int + 1).last() == dead@[k as int]);
                }
                match find_match(&self.zoxide_directories, dead[k].0.as_str(), sep) {
                    Some(_) => {
                        let ghost pre = items@;
                        items.push(
                            SessionItem::ResurrectableSession {
                                name: dead[k].0.clone(),
                                elapsed_secs: dead[k].1,
                            },
                        );
                        proof {
                            assert(ivs(items@) =~= ivs(pre).push(items@[pre.len() as int]@));
                            assert(items@[pre.len() as int]@ == (ItemV::Resurrectable {
                                name: dead@[k as int].0@,
                                elapsed_secs: dead@[k as int].1,
                            }));
                            assert(resur_part(dead@.take(k as int + 1), dv, sep@) =~= resur_part(
                                dead@.take(k as int),
                                dv,
                                sep@,
                            ) + seq![items@[pre.len() as int]@]);
                            assert(ivs(pre).push(items@[pre.len() as int]@) =~= part1
                                + resur_part(dead@.take(k as int + 1), dv, sep@));
                        }
                    },
                    None => {
                        proof {
                            assert(resur_part(dead@.take(k as int + 1), dv, sep@) =~= resur_part(
                                dead@.take(k as int),
                                dv,
                                sep@,
                            ));
                        }
                    },
                }
                k = k + 1;
            }
            proof {
                assert(dead@.take(nd as int) =~= dead@);
            }
        }
        let ghost part12 = ivs(items@);
        let nz = self.zoxide_directories.len();
        let mut j: usize = 0;
        proof {
            assert(dirs_part(dv).take(0) =~= Seq::<ItemV>::empty());
            assert(part12 + dirs_part(dv).take(0) =~= part12);
        }
        while j < nz
            invariant
                nz == self.zoxide_directories@.len(),
                self.zoxide_directories@ == self.spec_dirs(),
                dv == views_of(self.spec_dirs()),
                j <= nz,
                ivs(items@) == part12 + dirs_part(dv).take(j as int),
            decreases nz - j,
        {
            let ghost pre = items@;
            items.push(
                SessionItem::Directory {
                    path: self.zoxide_directories[j].directory.clone(),
                    session_name: self.zoxide_directories[j].session_name.clone(),
                },
            );
            proof {
                assert(ivs(items@) =~= ivs(pre).push(items@[pre.len() as int]@));
                assert(items@[pre.len() as int]@ == dirs_part(dv)[j as int]);
                assert(dirs_part(dv).take(j as int + 1) =~= dirs_part(dv).take(j as int).push(
                    dirs_part(dv)[j as int],
                ));
                assert((part12 + dirs_part(dv).take(j as int)).push(dirs_part(dv)[j as int])
                    =~= part12 + dirs_part(dv).take(j as int + 1));
            }
            j = j + 1;
        }
        proof {
            assert(dirs_part(dv).take(nz as int) =~= dirs_part(dv));
        }
        items
    }

    /// What the list screen shows: the search results while searching, else
    /// the full reconciled list.
    pub fn display_items(&self) -> (r: Vec<SessionItem>)
        requires
            self.inv(),
        ensures
            self.spec_engine().spec_searching() ==> ivs(r@) == items_of(
                self.spec_engine().spec_results(),
            ),
            !self.spec_engine().spec_searching() ==> ivs(r@) == self.combined_view(),
    {
        if self.search_engine.is_searching() {
            let results = self.search_engine.results();
            let n = results.len();
            let mut r: Vec<SessionItem> = Vec::new();
            let mut i: usize = 0;
            proof {
                assert(ivs(r@) =~= Seq::<ItemV>::empty());
            }
            while i < n
                invariant
                    n == results@.len(),
                    results@ == self.spec_engine().spec_results(),
                    i <= n,
                    r@.len() == i,
                    forall|u: int| 0 <= u < i ==> (#[trigger] r@[u])@ == results@[u].item@,
                decreases n - i,
            {
                r.push(results[i].item.duplicate());
                i = i + 1;
            }
            proof {
                assert(ivs(r@) =~= items_of(self.spec_engine().spec_results()));
            }
            r
        } else {
            self.combined_items()
        }
    }

    /// The active cursor: the engine's while searching, the list's otherwise.
    pub fn selected_index(&self) -> (r: Option<usize>)
        ensures
            r == if self.spec_engine().spec_searching() {
                self.spec_engine().spec_selected()
            } else {
                self.spec_selected()
            },
    {
        if self.search_engine.is_searching() {
            self.search_engine.selected_index()
        } else {
            self.selected_index
        }
    }

    /// The item the cursor rests on, if any.
    pub fn selected_item(&self) -> (r: Option<SessionItem>)
        requires
            self.inv(),
        ensures
            match self.spec_selected_item() {
                Some(iv) => r matches Some(it) && it@ == iv,
                None => r is None,
            },
    {
        if self.search_engine.is_searching() {
            match self.search_engine.selected_item() {
                Some(it) => Some(it.duplicate()),
                None => None,
            }
        } else {
            match self.selected_index {
                Some(i) => {
                    let items = self.combined_items();
                    if i < items.len() {
                        proof {
                            assert(items@[i as int]@ == ivs(items@)[i as int]);
                        }
                        Some(items[i].duplicate())
                    } else {
                        None
                    }
                },
                None => None,
            }
        }
    }
}

impl PluginState {
    /// Re-runs the active search, if any, against the current unified list.
    fn update_search_if_needed(&mut self)
        requires
            old(self).inv(),
        ensures
            final(self).inv(),
            core_unchanged(*old(self), *final(self)),
            final(self).spec_screen() == old(self).spec_screen(),
            final(self).spec_error() == old(self).spec_error(),
            final(self).spec_selected() == old(self).spec_selected(),
            search_refreshed(
                old(self).spec_engine(),
                final(self).spec_engine(),
                old(self).combined_view(),
            ),
    {
        if self.search_engine.is_searching() {
            let term = self.search_engine.search_term().to_owned();
            let items = self.combined_items();
            self.search_engine.update_search(term, &items);
        }
    }

    /// Replaces the live session list, remembers the (first) current
    /// session's name, and refreshes any active search.
    pub fn update_sessions(&mut self, sessions: Vec<SessionInfo>)
        requires
            old(self).inv(),
        ensures
            final(self).inv(),
            final(self).spec_manager().spec_sessions() == sessions@,
            final(self).spec_manager().spec_resurrectable() == old(
                self,
            ).spec_manager().spec_resurrectable(),
            final(self).spec_manager().spec_pending() == old(self).spec_manager().spec_pending(),
            match first_current(sessions@) {
                Some(i) => final(self).spec_current() matches Some(c) && c@ == sessions@[i].name@,
                None => final(self).spec_current() == old(self).spec_current(),
            },
            final(self).spec_config() == old(self).spec_config(),
            final(self).spec_dirs() == old(self).spec_dirs(),
            final(self).spec_home() == old(self).spec_home(),
            final(self).spec_request_ids() == old(self).spec_request_ids(),
            final(self).spec_screen() == old(self).spec_screen(),
            final(self).spec_error() == old(self).spec_error(),
            final(self).spec_selected() == old(self).spec_selected(),
            search_refreshed(
                old(self).spec_engine(),
                final(self).spec_engine(),
                final(self).combined_view(),
            ),
    {
        let n = sessions.len();
        let mut i: usize = 0;
        let mut found = false;
        while i < n && !found
            invariant
                n == sessions@.len(),
                i <= n,
                forall|u: int| 0 <= u < i ==> !(#[trigger] sessions@[u]).is_current_session,
                found ==> i < n && sessions@[i as int].is_current_session,
                self == old(self),
            decreases n - i, (if found { 0int } else { 1int }),
        {
            if sessions[i].is_current_session {
                found = true;
            } else {
                i = i + 1;
            }
        }
        proof {
            lemma_first_current_at(sessions@, i as int);
        }
        if found {
            self.current_session_name = Some(sessions[i].name.clone());
        }
        self.session_manager.update_sessions(sessions);
        self.update_search_if_needed();
    }

    /// Replaces the recoverable session list and refreshes any active search.
    pub fn update_resurrectable_sessions(&mut self, resurrectable: Vec<(String, u64)>)
        requires
            old(self).inv(),
        ensures
            final(self).inv(),
            final(self).spec_manager().spec_resurrectable() == resurrectable@,
            final(self).spec_manager().spec_sessions() == old(self).spec_manager().spec_sessions(),
            final(self).spec_manager().spec_pending() == old(self).spec_manager().spec_pending(),
            final(self).spec_config() == old(self).spec_config(),
            final(self).spec_dirs() == old(self).spec_dirs(),
            final(self).spec_home() == old(self).spec_home(),
            final(self).spec_request_ids() == old(self).spec_request_ids(),
            final(self).spec_current() == old(self).spec_current(),
            final(self).spec_screen() == old(self).spec_screen(),
            final(self).spec_error() == old(self).spec_error(),
            final(self).spec_selected() == old(self).spec_selected(),
            search_refreshed(
                old(self).spec_engine(),
                final(self).spec_engine(),
                final(self).combined_view(),
            ),
    {
        self.session_manager.update_resurrectable_sessions(resurrectable);
        self.update_search_if_needed();
    }

    /// Replaces the candidate directory set and refreshes any active search.
    pub fn update_zoxide_directories(&mut self, directories: Vec<ZoxideDirectory>)
        requires
            old(self).inv(),
        ensures
            final(self).inv(),
            final(self).spec_dirs() == directories@,
            final(self).spec_manager() == old(self).spec_manager(),
            final(self).spec_config() == old(self).spec_config(),
            final(self).spec_home() == old(self).spec_home(),
            final(self).spec_request_ids() == old(self).spec_request_ids(),
            final(self).spec_current() == old(self).spec_current(),
            final(self).spec_screen() == old(self).spec_screen(),
            final(self).spec_error() == old(self).spec_error(),
            final(self).spec_selected() == old(self).spec_selected(),
            search_refreshed(
                old(self).spec_engine(),
                final(self).spec_engine(),
                final(self).combined_view(),
            ),
    {
        self.zoxide_directories = directories;
        self.update_search_if_needed();
    }

    /// Ingests raw ranking-source output: parses its lines, resolves a unique
    /// bounded session name per directory, sorts by rank, and refreshes any
    /// active search.
    pub fn process_zoxide_output(&mut self, out: &str)
        requires
            old(self).inv(),
        ensures
            final(self).inv(),
            views_of(final(self).spec_dirs()) == sort_cands(
                named_candidates(
                    out@,
                    old(self).spec_config().base_paths.deep_view(),
                    opt_view(old(self).spec_home()),
                    old(self).spec_config().session_separator@,
                ),
            ),
            final(self).spec_manager() == old(self).spec_manager(),
            final(self).spec_config() == old(self).spec_config(),
            final(self).spec_home() == old(self).spec_home(),
            final(self).spec_request_ids() == old(self).spec_request_ids(),
            final(self).spec_current() == old(self).spec_current(),
            final(self).spec_screen() == old(self).spec_screen(),
            final(self).spec_error() == old(self).spec_error(),
            final(self).spec_selected() == old(self).spec_selected(),
            search_refreshed(
                old(self).spec_engine(),
                final(self).spec_engine(),
                final(self).combined_view(),
            ),
    {
        let dirs = crate::zoxide::process_zoxide_output(out, &self.config, &self.home_dir);
        self.update_zoxide_directories(dirs);
    }

    /// Moves the active cursor up, wrapping at the top.
    pub fn move_selection_up(&mut self)
        requires
            old(self).inv(),
        ensures
            final(self).inv(),
            only_cursor_changes(*old(self), *final(self)),
            if old(self).spec_engine().spec_searching() {
                engine_moved(old(self).spec_engine(), final(self).spec_engine(), true)
                    && (final(self).spec_selected() == old(self).spec_selected())
            } else {
                final(self).spec_engine() == old(self).spec_engine() && final(self).spec_selected()
                    == spec_main_move_up(
                    old(self).spec_selected(),
                    old(self).combined_view().len() as int,
                )
            },
    {
        if self.search_engine.is_searching() {
            self.search_engine.move_selection_up();
        } else {
            let items = self.display_items();
            let len = items.len();
            proof {
                assert(ivs(items@).len() == items@.len());
            }
            if len == 0 {
                return ;
            }
            match self.selected_index {
                Some(sel) => {
                    if sel == 0 {
                        self.selected_index = Some(len - 1);
                    } else {
                        self.selected_index = Some(sel - 1);
                    }
                },
                None => {
                    self.selected_index = Some(len - 1);
                },
            }
        }
    }

    /// Moves the active cursor down, wrapping at the bottom.
    pub fn move_selection_down(&mut self)
        requires
            old(self).inv(),
        ensures
            final(self).inv(),
            only_cursor_changes(*old(self), *final(self)),
            if old(self).spec_engine().spec_searching() {
                engine_moved(old(self).spec_engine(), final(self).spec_engine(), false)
                    && (final(self).spec_selected() == old(self).spec_selected())
            } else {
                final(self).spec_engine() == old(self).spec_engine() && final(self).spec_selected()
                    == spec_main_move_down(
                    old(self).spec_selected(),
                    old(self).combined_view().len() as int,
                )
            },
    {
        if self.search_engine.is_searching() {
            self.search_engine.move_selection_down();
        } else {
            let items = self.display_items();
            let len = items.len();
            proof {
                assert(ivs(items@).len() == items@.len());
            }
            if len == 0 {
                return ;
            }
            match self.selected_index {
                Some(sel) => {
                    if sel >= len - 1 {
                        self.selected_index = Some(0);
                    } else {
                        self.selected_index = Some(sel + 1);
                    }
                },
                None => {
                    self.selected_index = Some(0);
                },
            }
        }
    }
}

impl Default for PluginState {
    /// The same fresh state as `new`.
    fn default() -> (s: PluginState)
        ensures
            s.inv(),
            s.spec_screen() == ActiveScreen::Main,
            s.spec_error() is None,
            s.spec_selected() is None,
            !s.spec_engine().spec_searching(),
    {
        PluginState::new()
    }
}

/// State equality away from the search/selection/screen/error surface.
pub open spec fn core_unchanged(pre: PluginState, post: PluginState) -> bool {
    &&& post.spec_config() == pre.spec_config()
    &&& post.spec_manager() == pre.spec_manager()
    &&& post.spec_dirs() == pre.spec_dirs()
    &&& post.spec_home() == pre.spec_home()
    &&& post.spec_request_ids() == pre.spec_request_ids()
    &&& post.spec_current() == pre.spec_current()
}

/// The search/selection/screen/error surface, unchanged.
pub open spec fn ui_unchanged(pre: PluginState, post: PluginState) -> bool {
    &&& post.spec_engine() == pre.spec_engine()
    &&& post.spec_selected() == pre.spec_selected()
    &&& post.spec_screen() == pre.spec_screen()
    &&& post.spec_error() == pre.spec_error()
}

pub open spec fn state_unchanged(pre: PluginState, post: PluginState) -> bool {
    core_unchanged(pre, post) && ui_unchanged(pre, post)
}

/// A search pass has been re-run (or skipped, when idle) against `items`.
pub open spec fn search_refreshed(pre: SearchEngine, post: SearchEngine, items: Seq<ItemV>) -> bool {
    &&& post.spec_term() == pre.spec_term()
    &&& post.spec_searching() == pre.spec_searching()
    &&& (!pre.spec_searching() ==> post == pre)
    &&& (pre.spec_searching() ==> items_of(post.spec_results()) == result_items(
        items,
        pre.spec_term(),
    ) && post.spec_selected() == spec_repair(
        pre.spec_selected(),
        result_items(items, pre.spec_term()).len() as int,
    ))
}

/// The engine after one full search against `items` with the query `term`.
pub open spec fn engine_searched(
    pre: SearchEngine,
    post: SearchEngine,
    items: Seq<ItemV>,
    term: Seq<char>,
) -> bool {
    &&& post.spec_term() == term
    &&& post.spec_searching() == (term.len() > 0)
    &&& (term.len() == 0 ==> post.spec_results().len() == 0 && post.spec_selected() is None)
    &&& (term.len() > 0 ==> items_of(post.spec_results()) == result_items(items, term)
        && post.spec_selected() == spec_repair(
        pre.spec_selected(),
        result_items(items, term).len() as int,
    ))
}

/// The engine after one cursor move, everything else equal.
pub open spec fn engine_moved(pre: SearchEngine, post: SearchEngine, up: bool) -> bool {
    &&& post.spec_term() == pre.spec_term()
    &&& post.spec_results() == pre.spec_results()
    &&& post.spec_searching() == pre.spec_searching()
    &&& post.spec_selected() == (if up {
        crate::search::spec_move_up(pre.spec_selected(), pre.spec_results().len() as int)
    } else {
        crate::search::spec_move_down(pre.spec_selected(), pre.spec_results().len() as int)
    })
}

/// The engine reset to idle.
pub open spec fn engine_cleared(post: SearchEngine) -> bool {
    &&& post.spec_term().len() == 0
    &&& !post.spec_searching()
    &&& post.spec_results().len() == 0
    &&& post.spec_selected() is None
}

/// One upward move of the full-list cursor: no move over an empty list; from
/// unset or index zero to the last index; else one up.
pub open spec fn spec_main_move_up(prev: Option<usize>, len: int) -> Option<usize> {
    if len == 0 {
        prev
    } else {
        match prev {
            Some(s) => if s == 0 {
                Some((len - 1) as usize)
            } else {
                Some((s - 1) as usize)
            },
            None => Some((len - 1) as usize),
        }
    }
}

/// One downward move of the full-list cursor: no move over an empty list;
/// from unset to index zero; from at (or past) the last index around to zero;
/// else one down.
pub open spec fn spec_main_move_down(prev: Option<usize>, len: int) -> Option<usize> {
    if len == 0 {
        prev
    } else {
        match prev {
            Some(s) => if s as int >= len - 1 {
                Some(0usize)
            } else {
                Some((s + 1) as usize)
            },
            None => Some(0usize),
        }
    }
}

/// The name an item stands for.
pub open spec fn item_name(iv: ItemV) -> Seq<char> {
    match iv {
        ItemV::Existing { name, .. } => name,
        ItemV::Resurrectable { name, .. } => name,
        ItemV::Directory { session_name, .. } => session_name,
    }
}

/// The directory path of a `Directory` item.
pub open spec fn item_path(iv: ItemV) -> Seq<char> {
    match iv {
        ItemV::Directory { path, .. } => path,
        _ => Seq::empty(),
    }
}

/// Does this session offer a layout of this name?
pub open spec fn has_layout(si: SessionInfo, want: Seq<char>) -> bool {
    exists|j: int|
        0 <= j < si.available_layouts@.len() && (#[trigger] si.available_layouts@[j])@ == want
}

/// The layout quick creation uses, if any: the configured default layout,
/// provided the current session offers it.
pub open spec fn layout_pick(config: Config, sessions: Seq<SessionInfo>) -> Option<Seq<char>> {
    match config.default_layout {
        Some(l) => match first_current(sessions) {
            Some(i) => if has_layout(sessions[i], l@) {
                Some(l@)
            } else {
                None
            },
            None => None,
        },
        None => None,
    }
}

/// The manager with only a pending deletion recorded.
pub open spec fn manager_started_deletion(
    pre: SessionManager,
    post: SessionManager,
    name: Seq<char>,
) -> bool {
    &&& post.spec_sessions() == pre.spec_sessions()
    &&& post.spec_resurrectable() == pre.spec_resurrectable()
    &&& post.spec_pending() matches Some(n) && n@ == name
}

/// Everything but the engine and the main-list cursor unchanged.
pub open spec fn only_cursor_changes(pre: PluginState, post: PluginState) -> bool {
    &&& core_unchanged(pre, post)
    &&& post.spec_screen() == pre.spec_screen()
    &&& post.spec_error() == pre.spec_error()
}

/// What a key on the main screen does.
pub open spec fn main_key_transition(
    pre: PluginState,
    post: PluginState,
    key: Key,
    render: bool,
    acts: Seq<HostAction>,
) -> bool {
    match key {
        Key::Up => render && acts.len() == 0 && only_cursor_changes(pre, post) && (
        if pre.spec_engine().spec_searching() {
            engine_moved(pre.spec_engine(), post.spec_engine(), true) && post.spec_selected()
                == pre.spec_selected()
        } else {
            post.spec_engine() == pre.spec_engine() && post.spec_selected() == spec_main_move_up(
                pre.spec_selected(),
                pre.combined_view().len() as int,
            )
        }),
        Key::Down => render && acts.len() == 0 && only_cursor_changes(pre, post) && (
        if pre.spec_engine().spec_searching() {
            engine_moved(pre.spec_engine(), post.spec_engine(), false) && post.spec_selected()
                == pre.spec_selected()
        } else {
            post.spec_engine() == pre.spec_engine() && post.spec_selected() == spec_main_move_down(
                pre.spec_selected(),
                pre.combined_view().len() as int,
            )
        }),
        Key::Enter => render && (match pre.spec_selected_item() {
            None => acts.len() == 0 && state_unchanged(pre, post),
            Some(iv) => if !(iv is Directory) {
                &&& acts.len() == 2
                &&& (acts[0] matches HostAction::Session(HostCommand::SwitchTo(n)) && n@
                    == item_name(iv))
                &&& acts[1] is HideSelf
                &&& state_unchanged(pre, post)
            } else {
                &&& acts.len() == 3
                &&& (exists|nm: Seq<char>|
                    increment_result(
                        pre.spec_manager().spec_sessions(),
                        pre.spec_manager().spec_resurrectable(),
                        item_name(iv),
                        pre.spec_config().session_separator@,
                        nm,
                    ) && (acts[0] matches HostAction::SetNewSessionName(n) && n@ == nm))
                &&& (acts[1] matches HostAction::SetNewSessionFolder(f) && f matches Some(p) && p@
                    == item_path(iv))
                &&& acts[2] is AdvanceToLayoutSelection
                &&& core_unchanged(pre, post)
                &&& post.spec_engine() == pre.spec_engine()
                &&& post.spec_selected() == pre.spec_selected()
                &&& post.spec_error() == pre.spec_error()
                &&& post.spec_screen() == ActiveScreen::NewSession
            },
        }),
        Key::CtrlEnter => render && quick_create_transition(pre, post, acts),
        Key::Delete => render && acts.len() == 0 && (match pre.spec_selected_item() {
            Some(iv) => if !(iv is Directory) {
                &&& manager_started_deletion(
                    pre.spec_manager(),
                    post.spec_manager(),
                    item_name(iv),
                )
                &&& post.spec_config() == pre.spec_config()
                &&& post.spec_dirs() == pre.spec_dirs()
                &&& post.spec_home() == pre.spec_home()
                &&& post.spec_request_ids() == pre.spec_request_ids()
                &&& post.spec_current() == pre.spec_current()
                &&& ui_unchanged(pre, post)
            } else {
                state_unchanged(pre, post)
            },
            None => state_unchanged(pre, post),
        }),
        Key::Char(c) => if c != '\n' {
            &&& render
            &&& acts.len() == 0
            &&& only_cursor_changes(pre, post)
            &&& post.spec_selected() == pre.spec_selected()
            &&& engine_searched(
                pre.spec_engine(),
                post.spec_engine(),
                pre.combined_view(),
                pre.spec_engine().spec_term().push(c),
            )
        } else {
            !render && acts.len() == 0 && state_unchanged(pre, post)
        },
        Key::Backspace => {
            let t0 = pre.spec_engine().spec_term();
            let term = if t0.len() > 0 {
                t0.take(t0.len() - 1)
            } else {
                t0
            };
            &&& render
            &&& acts.len() == 0
            &&& only_cursor_changes(pre, post)
            &&& post.spec_selected() == pre.spec_selected()
            &&& engine_searched(pre.spec_engine(), post.spec_engine(), pre.combined_view(), term)
        },
        Key::Esc => if pre.spec_engine().spec_searching() {
            render && acts.len() == 0 && only_cursor_changes(pre, post) && engine_cleared(
                post.spec_engine(),
            ) && post.spec_selected() == pre.spec_selected()
        } else {
            !render && acts.len() == 1 && acts[0] is HideSelf && state_unchanged(pre, post)
        },
        Key::CtrlChar(c) => if c == 'c' {
            !render && acts.len() == 1 && acts[0] is HideSelf && state_unchanged(pre, post)
        } else if c == 'r' {
            render && acts.len() == 1 && acts[0] is FetchDirectories && state_unchanged(pre, post)
        } else {
            !render && acts.len() == 0 && state_unchanged(pre, post)
        },
        _ => !render && acts.len() == 0 && state_unchanged(pre, post),
    }
}

/// What quick session creation does, by what the cursor rests on.
pub open spec fn quick_create_transition(
    pre: PluginState,
    post: PluginState,
    acts: Seq<HostAction>,
) -> bool {
    match pre.spec_selected_item() {
        None => acts.len() == 0 && core_unchanged(pre, post) && post.spec_engine()
            == pre.spec_engine() && post.spec_selected() == pre.spec_selected()
            && post.spec_screen() == pre.spec_screen() && (post.spec_error() matches Some(e) && e@
            == "Please select a directory"@),
        Some(iv) => if !(iv is Directory) {
            &&& acts.len() == 2
            &&& (acts[0] matches HostAction::SwitchWithCwd { name, folder } && name@ == item_name(
                iv,
            ) && folder is None)
            &&& acts[1] is HideSelf
            &&& state_unchanged(pre, post)
        } else {
            exists|nm: Seq<char>|
                #[trigger] increment_result(
                    pre.spec_manager().spec_sessions(),
                    pre.spec_manager().spec_resurrectable(),
                    item_name(iv),
                    pre.spec_config().session_separator@,
                    nm,
                ) && quick_create_outcome(pre, post, nm, item_path(iv), acts)
        },
    }
}

/// After the incremented name `nm` is computed for a directory: validation
/// failures surface an error and abort; otherwise the host switches with the
/// default layout when the current session offers it, or with the working
/// directory alone.
pub open spec fn quick_create_outcome(
    pre: PluginState,
    post: PluginState,
    nm: Seq<char>,
    path: Seq<char>,
    acts: Seq<HostAction>,
) -> bool {
    let err_unchanged = core_unchanged(pre, post) && post.spec_engine() == pre.spec_engine()
        && post.spec_selected() == pre.spec_selected() && post.spec_screen() == pre.spec_screen();
    if byte_len(nm) >= 108 {
        acts.len() == 0 && err_unchanged && (post.spec_error() matches Some(e) && e@
            == "Session name must be shorter than 108 bytes"@)
    } else if nm.contains('/') {
        acts.len() == 0 && err_unchanged && (post.spec_error() matches Some(e) && e@
            == "Session name cannot contain '/'"@)
    } else if pre.spec_current() matches Some(c) && c@ == nm {
        acts.len() == 0 && err_unchanged && (post.spec_error() matches Some(e) && e@
            == "Cannot create session with same name as current session"@)
    } else {
        &&& state_unchanged(pre, post)
        &&& acts.len() == 2
        &&& acts[1] is HideSelf
        &&& (match layout_pick(pre.spec_config(), pre.spec_manager().spec_sessions()) {
            Some(want) => acts[0] matches HostAction::SwitchWithLayout { name, layout, folder }
                && name@ == nm && layout@ == want && (folder matches Some(f) && f@ == path),
            None => acts[0] matches HostAction::SwitchWithCwd { name, folder } && name@ == nm && (
            folder matches Some(f) && f@ == path),
        })
    }
}

/// What a key does on the session-creation screen.
pub open spec fn new_session_key_transition(
    pre: PluginState,
    post: PluginState,
    key: Key,
    render: bool,
    acts: Seq<HostAction>,
) -> bool {
    match key {
        Key::Enter => render && acts.len() == 1 && acts[0] is NewSessionSelection
            && core_unchanged(pre, post) && post.spec_engine() == pre.spec_engine()
            && post.spec_selected() == pre.spec_selected() && post.spec_error()
            == pre.spec_error() && post.spec_screen() == ActiveScreen::Main,
        Key::CtrlEnter => render && acts.len() == 1 && acts[0] is QuickCreateFromNewSession
            && state_unchanged(pre, post),
        Key::Esc => render && acts.len() == 1 && acts[0] is NewSessionEsc && state_unchanged(
            pre,
            post,
        ),
        Key::CtrlChar(c) => if c == 'f' {
            render && acts.len() == 1 && acts[0] is LaunchFilepicker && state_unchanged(pre, post)
        } else if c == 'c' {
            render && acts.len() == 1 && acts[0] == HostAction::SetNewSessionFolder(None)
                && state_unchanged(pre, post)
        } else {
            render && acts.len() == 1 && (acts[0] matches HostAction::DelegateKey(k) && k == key)
                && state_unchanged(pre, post)
        },
        _ => render && acts.len() == 1 && (acts[0] matches HostAction::DelegateKey(k) && k == key)
            && state_unchanged(pre, post),
    }
}

fn msg_select_dir() -> (r: String)
    ensures
        r@ == "Please select a directory"@,
{
    String::from_str("Please select a directory")
}

fn msg_too_long() -> (r: String)
    ensures
        r@ == "Session name must be shorter than 108 bytes"@,
{
    String::from_str("Session name must be shorter than 108 bytes")
}

fn msg_slash() -> (r: String)
    ensures
        r@ == "Session name cannot contain '/'"@,
{
    String::from_str("Session name cannot contain '/'")
}

fn msg_same_name() -> (r: String)
    ensures
        r@ == "Cannot create session with same name as current session"@,
{
    String::from_str("Cannot create session with same name as current session")
}

impl PluginState {
    /// Handles one key event: a pending error is dismissed first; a pending
    /// deletion confirmation consumes the key next; otherwise the active
    /// screen's rules apply. Returns whether to re-render and the work the
    /// host must perform.
    pub fn handle_key(&mut self, key: Key) -> (r: (bool, Vec<HostAction>))
        requires
            old(self).inv(),
        ensures
            final(self).inv(),
            old(self).spec_error() is Some ==> r.0 && r.1@.len() == 0
                && (final(self).spec_error() is None)
                && core_unchanged(*old(self), *final(self))
                && (final(self).spec_engine() == old(self).spec_engine())
                && (final(self).spec_selected() == old(self).spec_selected())
                && (final(self).spec_screen() == old(self).spec_screen()),
            old(self).spec_error() is None && old(self).spec_manager().spec_pending() is Some
                ==> deletion_key_transition(*old(self), *final(self), key, r.0, r.1@),
            old(self).spec_error() is None && old(self).spec_manager().spec_pending() is None
                && old(self).spec_screen() == ActiveScreen::Main ==> main_key_transition(
                *old(self),
                *final(self),
                key,
                r.0,
                r.1@,
            ),
            old(self).spec_error() is None && old(self).spec_manager().spec_pending() is None
                && old(self).spec_screen() == ActiveScreen::NewSession
                ==> new_session_key_transition(*old(self), *final(self), key, r.0, r.1@),
    {
        if self.error.is_some() {
            self.error = None;
            return (true, Vec::new());
        }
        let pending = match self.session_manager.pending_deletion() {
            Some(_) => true,
            None => false,
        };
        if pending {
            return self.handle_deletion_confirmation(key);
        }
        match self.active_screen {
            ActiveScreen::Main => self.handle_main_screen_key(key),
            ActiveScreen::NewSession => self.handle_new_session_key(key),
        }
    }

    fn handle_deletion_confirmation(&mut self, key: Key) -> (r: (bool, Vec<HostAction>))
        requires
            old(self).inv(),
        ensures
            final(self).inv(),
            deletion_key_transition(*old(self), *final(self), key, r.0, r.1@),
    {
        let confirm = match key {
            Key::Char(c) => c == 'y' || c == 'Y',
            _ => false,
        };
        let cancel = match key {
            Key::Char(c) => c == 'n' || c == 'N',
            Key::Esc => true,
            _ => false,
        };
        if confirm {
            let mut acts: Vec<HostAction> = Vec::new();
            match self.session_manager.confirm_deletion() {
                Some(cmd) => {
                    acts.push(HostAction::Session(cmd));
                },
                None => {},
            }
            (true, acts)
        } else if cancel {
            self.session_manager.cancel_deletion();
            (true, Vec::new())
        } else {
            (false, Vec::new())
        }
    }

    fn handle_main_screen_key(&mut self, key: Key) -> (r: (bool, Vec<HostAction>))
        requires
            old(self).inv(),
        ensures
            final(self).inv(),
            main_key_transition(*old(self), *final(self), key, r.0, r.1@),
    {
        match key {
            Key::Up => {
                self.move_selection_up();
                (true, Vec::new())
            },
            Key::Down => {
                self.move_selection_down();
                (true, Vec::new())
            },
            Key::Enter => {
                let acts = self.handle_item_selection();
                (true, acts)
            },
            Key::CtrlEnter => {
                let acts = self.handle_quick_session_creation();
                (true, acts)
            },
            Key::Delete => {
                self.handle_delete_key();
                (true, Vec::new())
            },
            Key::Char(c) => {
                if c != '\n' {
                    let items = self.combined_items();
                    self.search_engine.add_char(c, &items);
                    (true, Vec::new())
                } else {
                    (false, Vec::new())
                }
            },
            Key::Backspace => {
                let items = self.combined_items();
                self.search_engine.backspace(&items);
                proof {
                    if old(self).spec_engine().spec_term().len() == 0 {
                        assert(old(self).spec_engine().spec_term().take(0)
                            =~= old(self).spec_engine().spec_term());
                    }
                }
                (true, Vec::new())
            },
            Key::Esc => {
                if self.search_engine.is_searching() {
                    self.search_engine.clear();
                    (true, Vec::new())
                } else {
                    let mut acts: Vec<HostAction> = Vec::new();
                    acts.push(HostAction::HideSelf);
                    (false, acts)
                }
            },
            Key::CtrlChar(c) => {
                if c == 'c' {
                    let mut acts: Vec<HostAction> = Vec::new();
                    acts.push(HostAction::HideSelf);
                    (false, acts)
                } else if c == 'r' {
                    let mut acts: Vec<HostAction> = Vec::new();
                    acts.push(HostAction::FetchDirectories);
                    (true, acts)
                } else {
                    (false, Vec::new())
                }
            },
            _ => (false, Vec::new()),
        }
    }

    fn handle_item_selection(&mut self) -> (acts: Vec<HostAction>)
        requires
            old(self).inv(),
        ensures
            final(self).inv(),
            main_key_transition(*old(self), *final(self), Key::Enter, true, acts@),
    {
        let selected = self.selected_item();
        match selected {
            None => Vec::new(),
            Some(item) => {
                match item {
                    SessionItem::ExistingSession { name, .. } => {
                        let cmd = self.session_manager.execute_action(
                            crate::item::SessionAction::Switch(name),
                        );
                        let mut acts: Vec<HostAction> = Vec::new();
                        acts.push(HostAction::Session(cmd));
                        acts.push(HostAction::HideSelf);
                        acts
                    },
                    SessionItem::ResurrectableSession { name, .. } => {
                        let cmd = self.session_manager.execute_action(
                            crate::item::SessionAction::Switch(name),
                        );
                        let mut acts: Vec<HostAction> = Vec::new();
                        acts.push(HostAction::Session(cmd));
                        acts.push(HostAction::HideSelf);
                        acts
                    },
                    SessionItem::Directory { path, session_name } => {
                        let incremented = self.session_manager.generate_incremented_name(
                            session_name.as_str(),
                            self.config.session_separator.as_str(),
                        );
                        proof {
                            let iv = old(self).spec_selected_item().unwrap();
                            assert(item_name(iv) == session_name@);
                            assert(increment_result(
                                old(self).spec_manager().spec_sessions(),
                                old(self).spec_manager().spec_resurrectable(),
                                item_name(iv),
                                old(self).spec_config().session_separator@,
                                incremented@,
                            ));
                        }
                        let mut acts: Vec<HostAction> = Vec::new();
                        acts.push(HostAction::SetNewSessionName(incremented));
                        acts.push(HostAction::SetNewSessionFolder(Some(path)));
                        acts.push(HostAction::AdvanceToLayoutSelection);
                        self.active_screen = ActiveScreen::NewSession;
                        acts
                    },
                }
            },
        }
    }

    fn handle_delete_key(&mut self)
        requires
            old(self).inv(),
        ensures
            final(self).inv(),
            main_key_transition(*old(self), *final(self), Key::Delete, true, Seq::empty()),
    {
        let selected = self.selected_item();
        match selected {
            Some(SessionItem::ExistingSession { name, .. }) => {
                self.session_manager.start_deletion(name);
            },
            Some(SessionItem::ResurrectableSession { name, .. }) => {
                self.session_manager.start_deletion(name);
            },
            _ => {},
        }
    }

    fn handle_quick_session_creation(&mut self) -> (acts: Vec<HostAction>)
        requires
            old(self).inv(),
        ensures
            final(self).inv(),
            quick_create_transition(*old(self), *final(self), acts@),
    {
        let selected = self.selected_item();
        match selected {
            None => {
                self.set_error(msg_select_dir());
                Vec::new()
            },
            Some(item) => {
                match item {
                    SessionItem::ExistingSession { name, .. } => {
                        let mut acts: Vec<HostAction> = Vec::new();
                        acts.push(HostAction::SwitchWithCwd { name, folder: None });
                        acts.push(HostAction::HideSelf);
                        acts
                    },
                    SessionItem::ResurrectableSession { name, .. } => {
                        let mut acts: Vec<HostAction> = Vec::new();
                        acts.push(HostAction::SwitchWithCwd { name, folder: None });
                        acts.push(HostAction::HideSelf);
                        acts
                    },
                    SessionItem::Directory { path, session_name } => {
                        let name = self.session_manager.generate_incremented_name(
                            session_name.as_str(),
                            self.config.session_separator.as_str(),
                        );
                        proof {
                            let iv = old(self).spec_selected_item().unwrap();
                            assert(item_name(iv) == session_name@);
                            assert(item_path(iv) == path@);
                            assert(increment_result(
                                old(self).spec_manager().spec_sessions(),
                                old(self).spec_manager().spec_resurrectable(),
                                item_name(iv),
                                old(self).spec_config().session_separator@,
                                name@,
                            ));
                        }
                        if !crate::strutil::byte_len_le(name.as_str(), 107) {
                            self.set_error(msg_too_long());
                            return Vec::new();
                        }
                        if str_contains_char(name.as_str(), '/') {
                            self.set_error(msg_slash());
                            return Vec::new();
                        }
                        let same = match &self.current_session_name {
                            Some(c) => str_eq(name.as_str(), c.as_str()),
                            None => false,
                        };
                        if same {
                            self.set_error(msg_same_name());
                            return Vec::new();
                        }
                        let layout = self.pick_layout();
                        let mut acts: Vec<HostAction> = Vec::new();
                        match layout {
                            Some(l) => {
                                acts.push(
                                    HostAction::SwitchWithLayout {
                                        name,
                                        layout: l,
                                        folder: Some(path),
                                    },
                                );
                            },
                            None => {
                                acts.push(HostAction::SwitchWithCwd { name, folder: Some(path) });
                            },
                        }
                        acts.push(HostAction::HideSelf);
                        acts
                    },
                }
            },
        }
    }

    fn pick_layout(&self) -> (r: Option<String>)
        ensures
            match r {
                Some(l) => layout_pick(self.spec_config(), self.spec_manager().spec_sessions())
                    == Some(l@),
                None => layout_pick(
                    self.spec_config(),
                    self.spec_manager().spec_sessions(),
                ) is None,
            },
    {
        let want = match &self.config.default_layout {
            Some(l) => l,
            None => {
                return None;
            },
        };
        let sessions = self.session_manager.sessions();
        let n = sessions.len();
        let mut i: usize = 0;
        let mut found = false;
        while i < n && !found
            invariant
                n == sessions@.len(),
                sessions@ == self.spec_manager().spec_sessions(),
                i <= n,
                forall|u: int| 0 <= u < i ==> !(#[trigger] sessions@[u]).is_current_session,
                found ==> i < n && sessions@[i as int].is_current_session,
            decreases n - i, (if found { 0int } else { 1int }),
        {
            if sessions[i].is_current_session {
                found = true;
            } else {
                i = i + 1;
            }
        }
        proof {
            lemma_first_current_at(sessions@, i as int);
        }
        if !found {
            return None;
        }
        proof {
            assert(first_current(self.spec_manager().spec_sessions()) == Some(i as int));
        }
        let layouts = &sessions[i].available_layouts;
        let m = layouts.len();
        let mut j: usize = 0;
        while j < m
            invariant
                m == layouts@.len(),
                i < self.spec_manager().spec_sessions().len(),
                layouts@ == self.spec_manager().spec_sessions()[i as int].available_layouts@,
                first_current(self.spec_manager().spec_sessions()) == Some(i as int),
                self.spec_config().default_layout == Some(*want),
                j <= m,
                forall|u: int| 0 <= u < j ==> (#[trigger] layouts@[u])@ != want@,
            decreases m - j,
        {
            if str_eq(layouts[j].as_str(), want.as_str()) {
                proof {
                    assert(has_layout(self.spec_manager().spec_sessions()[i as int], want@));
                }
                return Some(want.clone());
            }
            j = j + 1;
        }
        proof {
            assert(!has_layout(self.spec_manager().spec_sessions()[i as int], want@));
        }
        None
    }

    fn handle_new_session_key(&mut self, key: Key) -> (r: (bool, Vec<HostAction>))
        requires
            old(self).inv(),
        ensures
            final(self).inv(),
            new_session_key_transition(*old(self), *final(self), key, r.0, r.1@),
    {
        let mut acts: Vec<HostAction> = Vec::new();
        match key {
            Key::Enter => {
                acts.push(HostAction::NewSessionSelection);
                self.active_screen = ActiveScreen::Main;
                (true, acts)
            },
            Key::CtrlEnter => {
                acts.push(HostAction::QuickCreateFromNewSession);
                (true, acts)
            },
            Key::Esc => {
                acts.push(HostAction::NewSessionEsc);
                (true, acts)
            },
            Key::CtrlChar(c) => {
                if c == 'f' {
                    acts.push(HostAction::LaunchFilepicker);
                } else if c == 'c' {
                    acts.push(HostAction::SetNewSessionFolder(None));
                } else {
                    acts.push(HostAction::DelegateKey(key));
                }
                (true, acts)
            },
            _ => {
                acts.push(HostAction::DelegateKey(key));
                (true, acts)
            },
        }
    }
}

/// What a key does while a deletion awaits confirmation.
pub open spec fn deletion_key_transition(
    pre: PluginState,
    post: PluginState,
    key: Key,
    render: bool,
    acts: Seq<HostAction>,
) -> bool {
    let confirm = key == Key::Char('y') || key == Key::Char('Y');
    let cancel = key == Key::Char('n') || key == Key::Char('N') || key == Key::Esc;
    if confirm {
        &&& render
        &&& post.spec_manager().spec_pending() is None
        &&& post.spec_manager().spec_sessions() == pre.spec_manager().spec_sessions()
        &&& post.spec_manager().spec_resurrectable() == pre.spec_manager().spec_resurrectable()
        &&& post.spec_config() == pre.spec_config()
        &&& post.spec_dirs() == pre.spec_dirs()
        &&& post.spec_home() == pre.spec_home()
        &&& post.spec_request_ids() == pre.spec_request_ids()
        &&& post.spec_current() == pre.spec_current()
        &&& ui_unchanged(pre, post)
        &&& (match pre.spec_manager().spec_pending() {
            Some(name) => acts.len() == 1 && (if crate::manager::dead_name_taken(
                pre.spec_manager().spec_resurrectable(),
                name@,
            ) {
                acts[0] matches HostAction::Session(HostCommand::DeleteDead(n)) && n@ == name@
            } else {
                acts[0] matches HostAction::Session(HostCommand::KillLive(n)) && n@ == name@
            }),
            None => acts.len() == 0,
        })
    } else if cancel {
        &&& render
        &&& acts.len() == 0
        &&& post.spec_manager().spec_pending() is None
        &&& post.spec_manager().spec_sessions() == pre.spec_manager().spec_sessions()
        &&& post.spec_manager().spec_resurrectable() == pre.spec_manager().spec_resurrectable()
        &&& post.spec_config() == pre.spec_config()
        &&& post.spec_dirs() == pre.spec_dirs()
        &&& post.spec_home() == pre.spec_home()
        &&& post.spec_request_ids() == pre.spec_request_ids()
        &&& post.spec_current() == pre.spec_current()
        &&& ui_unchanged(pre, post)
    } else {
        !render && acts.len() == 0 && state_unchanged(pre, post)
    }
}

} // verus!
