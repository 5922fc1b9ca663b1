use vstd::prelude::*;
use vstd::string::*;
use std::time::Instant;
use crate::error::SnippetError;
use crate::marker::{NextUpdate, SnippetsMaker};
use crate::notification::Notification;
use crate::objects::Document;
use crate::render::ManiaRenderer;
use crate::snippets::Snippets;
use crate::tags::{read_tags, tag_list};

verus! {

/// A persisted snippet that is known by its file name and its tags, and
/// not loaded yet.
#[derive(Clone, Debug)]
pub struct UnloadedSnippet {
    pub name: String,
    pub tags: Vec<String>,
}

/// What an `UnloadedSnippet` holds, as plain text.
pub struct UnloadedView {
    pub name: Seq<char>,
    pub tags: Seq<Seq<char>>,
}

impl View for UnloadedSnippet {
    type V = UnloadedView;

    open spec fn view(&self) -> UnloadedView {
        UnloadedView { name: self.name@, tags: self.tags.deep_view() }
    }
}

/// A file found where snippets are kept: its name, and the document read
/// from it or why it could not be read.
pub struct FoundFile {
    pub name: String,
    pub decoded: Result<Document, SnippetError>,
}

/// The snippets at hand, loaded and not, and the state of the controls
/// around them.
pub struct AppState {
    /// The loaded snippets, in the order they are listed.
    pub snippets: Vec<Snippets>,
    pub unloaded_snippets: Vec<UnloadedSnippet>,
    pub snippets_maker: SnippetsMaker,
    /// The place of the selected snippet among the loaded ones.
    pub selected_snippet: Option<usize>,
    /// The renderer of the preview, once a frame has asked for one.
    pub mania_renderer: Option<ManiaRenderer>,
    /// When the preview of the selected snippet was started.
    pub start_time: Instant,
    pub scroll_time_ms: u32,
    /// The preview's speed, in thousandths.
    pub snippet_speed: u32,
    pub show_save_dialog: bool,
    pub save_filename: String,
    pub notification: Option<Notification>,
}

/// Whether `text` ends with `suffix`.
pub open spec fn ends_with(text: Seq<char>, suffix: Seq<char>) -> bool {
    text.len() >= suffix.len() && text.subrange(text.len() - suffix.len(), text.len() as int)
        == suffix
}

/// Whether one of the snippets bears the name.
pub open spec fn is_loaded_name(snippets: Seq<Snippets>, name: Seq<char>) -> bool {
    exists|i: int| 0 <= i < snippets.len() && (#[trigger] snippets[i]).name@ == name
}

/// What a found file is listed as: nothing, unless its name marks it as a
/// snippet and a document with a tempo reference was read from it; then
/// under its name, with the tags that the document's text holds, none for
/// the empty text.
pub open spec fn listing_of(file: FoundFile) -> Option<UnloadedView> {
    match file.decoded {
        Ok(doc) => if ends_with(file.name@, ".snippets"@) && doc.tempo_references@.len() > 0 {
            Some(UnloadedView { name: file.name@, tags: tag_list(doc.tags@) })
        } else {
            None
        },
        Err(_) => None,
    }
}

/// The views of the entries, in order.
pub open spec fn views_of(entries: Seq<UnloadedSnippet>) -> Seq<UnloadedView> {
    entries.map_values(|u: UnloadedSnippet| u@)
}

/// Whether `text` ends with `suffix`.
pub fn str_ends_with(text: &str, suffix: &str) -> (ends: bool)
    ensures
        ends == ends_with(text@, suffix@),
{
    let n = text.unicode_len();
    let m = suffix.unicode_len();
    if n < m {
        return false;
    }
    let from = n - m;
    let mut i: usize = 0;
    while i < m
        invariant
            i <= m,
            m == suffix@.len(),
            n == text@.len(),
            from == n - m,
            forall|j: int| 0 <= j < i ==> text@[from + j] == suffix@[j],
        decreases m - i,
    {
        if text.get_char(from + i) != suffix.get_char(i) {
            proof {
                assert(text@.subrange(from as int, n as int)[i as int] == text@[from + i]);
            }
            return false;
        }
        i += 1;
    }
    proof {
        assert(text@.subrange(from as int, n as int) =~= suffix@);
    }
    true
}

/// The name of the file that a snippet called `name` is kept in: the name
/// itself, with `.snippets` added unless it ends so already.
pub fn snippet_file_name(name: &str) -> (file: String)
    ensures
        file@ == if ends_with(name@, ".snippets"@) {
            name@
        } else {
            name@ + ".snippets"@
        },
{
    let mut file = name.to_owned();
    if !str_ends_with(name, ".snippets") {
        file.append(".snippets");
    }
    file
}

impl UnloadedSnippet {
    /// A copy of the entry.
    pub fn duplicate(&self) -> (copy: Self)
        ensures
            copy@ == self@,
    {
        let mut tags: Vec<String> = Vec::new();
        let n = self.tags.len();
        let mut i: usize = 0;
        while i < n
            invariant
                i <= n,
                n == self.tags@.len(),
                tags@.len() == i,
                forall|j: int| 0 <= j < i ==> tags@[j]@ == self.tags@[j]@,
            decreases n - i,
        {
            tags.push(self.tags[i].clone());
            i += 1;
        }
        proof {
            assert(tags.deep_view() =~= self.tags.deep_view());
        }
        UnloadedSnippet { name: self.name.clone(), tags }
    }
}

impl AppState {
    /// The views of the entries that no loaded snippet bears the name of,
    /// in the order of the list.
    pub open spec fn undiscovered(self) -> Seq<UnloadedView> {
        views_of(
            self.unloaded_snippets@.filter(
                |u: UnloadedSnippet| !is_loaded_name(self.snippets@, u.name@),
            ),
        )
    }

    /// Whether the marker, the renderer and the settings of the preview and
    /// of the save dialog are as in `other`.
    pub open spec fn same_controls(self, other: AppState) -> bool {
        &&& self.snippets_maker == other.snippets_maker
        &&& self.mania_renderer == other.mania_renderer
        &&& self.scroll_time_ms == other.scroll_time_ms
        &&& self.snippet_speed == other.snippet_speed
        &&& self.show_save_dialog == other.show_save_dialog
        &&& self.save_filename == other.save_filename
    }

    /// The notification that is left once the one that is up has been up
    /// for `elapsed_millis`: none if it is due to go by then, else the one
    /// that is up.
    pub open spec fn notification_after(self, elapsed_millis: int) -> Option<Notification> {
        match self.notification {
            Some(n) => if n.expired_after(elapsed_millis) {
                None
            } else {
                Some(n)
            },
            None => None,
        }
    }

    /// Whether all but the notification is as in `other`.
    pub open spec fn same_but_notification(self, other: AppState) -> bool {
        &&& self.snippets == other.snippets
        &&& self.unloaded_snippets == other.unloaded_snippets
        &&& self.selected_snippet == other.selected_snippet
        &&& self.start_time == other.start_time
        &&& self.same_controls(other)
    }

    /// A state without snippets, with the preview at the speed of the game
    /// and a scroll time of one second, begun at the reading `now` of the
    /// clock.
    pub fn started(now: Instant) -> (state: Self)
        ensures
            state.snippets@.len() == 0,
            state.unloaded_snippets@.len() == 0,
            state.snippets_maker == (SnippetsMaker {
                time_start: 0,
                time_end: 0,
                next_update: NextUpdate::TimeStart,
            }),
            state.selected_snippet is None,
            state.mania_renderer is None,
            state.start_time == now,
            state.scroll_time_ms == 1000,
            state.snippet_speed == 1000,
            !state.show_save_dialog,
            state.save_filename@.len() == 0,
            state.notification is None,
    {
        AppState {
            snippets: Vec::new(),
            unloaded_snippets: Vec::new(),
            snippets_maker: SnippetsMaker::new(),
            selected_snippet: None,
            mania_renderer: None,
            start_time: now,
            scroll_time_ms: 1000,
            snippet_speed: 1000,
            show_save_dialog: false,
            save_filename: String::new(),
            notification: None,
        }
    }

    /// A state without snippets, with the preview at the speed of the game
    /// and a scroll time of one second: `started` with the clock's reading,
    /// whatever it is.
    pub fn new() -> (state: Self)
        ensures
            state.snippets@.len() == 0,
            state.unloaded_snippets@.len() == 0,
            state.snippets_maker == (SnippetsMaker {
                time_start: 0,
                time_end: 0,
                next_update: NextUpdate::TimeStart,
            }),
            state.selected_snippet is None,
            state.mania_renderer is None,
            state.scroll_time_ms == 1000,
            state.snippet_speed == 1000,
            !state.show_save_dialog,
            state.save_filename@.len() == 0,
            state.notification is None,
    {
        AppState::started(Instant::now())
    }

    /// Lists the found files that hold a snippet, behind those listed
    /// already: each under its file name, with the tags of its document.
    pub fn load_available_snippets(&mut self, found: Vec<FoundFile>)
        ensures
            views_of(final(self).unloaded_snippets@) == views_of(old(self).unloaded_snippets@)
                + found@.filter_map(|f: FoundFile| listing_of(f)),
            final(self).snippets == old(self).snippets,
            final(self).selected_snippet == old(self).selected_snippet,
            final(self).start_time == old(self).start_time,
            final(self).notification == old(self).notification,
            final(self).same_controls(*old(self)),
    {
        let ghost listing = |f: FoundFile| listing_of(f);
        let n = found.len();
        let mut i: usize = 0;
        proof {
            assert(found@.take(0).filter_map(listing) =~= Seq::<UnloadedView>::empty());
            assert(views_of(self.unloaded_snippets@) =~= views_of(old(self).unloaded_snippets@)
                + found@.take(0).filter_map(listing));
        }
        while i < n
            invariant
                i <= n,
                n == found@.len(),
                listing == (|f: FoundFile| listing_of(f)),
                views_of(self.unloaded_snippets@) == views_of(old(self).unloaded_snippets@)
                    + found@.take(i as int).filter_map(listing),
                self.snippets == old(self).snippets,
                self.selected_snippet == old(self).selected_snippet,
                self.start_time == old(self).start_time,
                self.notification == old(self).notification,
                self.same_controls(*old(self)),
            decreases n - i,
        {
            let file = &found[i];
            let ghost before = self.unloaded_snippets@;
            proof {
                found@.lemma_filter_map_take_succ(listing, i as int);
            }
            if str_ends_with(file.name.as_str(), ".snippets") {
                match &file.decoded {
                    Ok(doc) => {
                        if doc.tempo_references.len() > 0 {
                            let entry = UnloadedSnippet {
                                name: file.name.clone(),
                                tags: read_tags(doc.tags.as_str()),
                            };
                            self.unloaded_snippets.push(entry);
                            proof {
                                assert(listing_of(found@[i as int]) == Some(entry@));
                                assert(views_of(self.unloaded_snippets@) =~= views_of(before).push(
                                    entry@,
                                ));
                            }
                        }
                    },
                    Err(_) => {},
                }
            }
            i += 1;
            proof {
                assert(views_of(self.unloaded_snippets@) =~= views_of(old(self).unloaded_snippets@)
                    + found@.take(i as int).filter_map(listing));
            }
        }
        proof {
            assert(found@.take(n as int) =~= found@);
        }
    }

    /// Whether a loaded snippet bears the name.
    pub fn is_loaded(&self, name: &String) -> (loaded: bool)
        ensures
            loaded == is_loaded_name(self.snippets@, name@),
    {
        let n = self.snippets.len();
        let mut i: usize = 0;
        while i < n
            invariant
                i <= n,
                n == self.snippets@.len(),
                forall|j: int| 0 <= j < i ==> (#[trigger] self.snippets@[j]).name@ != name@,
            decreases n - i,
        {
            if self.snippets[i].name == *name {
                return true;
            }
            i += 1;
        }
        false
    }

    /// The persisted snippets that can still be loaded: those listed whose
    /// name no loaded snippet bears, in the order of the list.
    pub fn discover(&self) -> (open: Vec<UnloadedSnippet>)
        ensures
            views_of(open@) == self.undiscovered(),
    {
        let ghost fresh = |u: UnloadedSnippet| !is_loaded_name(self.snippets@, u.name@);
        let mut open: Vec<UnloadedSnippet> = Vec::new();
        let n = self.unloaded_snippets.len();
        let mut i: usize = 0;
        proof {
            assert(self.unloaded_snippets@.take(0).filter(fresh) =~= Seq::<UnloadedSnippet>::empty());
            assert(views_of(open@) =~= views_of(self.unloaded_snippets@.take(0).filter(fresh)));
        }
        while i < n
            invariant
                i <= n,
                n == self.unloaded_snippets@.len(),
                fresh == (|u: UnloadedSnippet| !is_loaded_name(self.snippets@, u.name@)),
                views_of(open@) == views_of(self.unloaded_snippets@.take(i as int).filter(fresh)),
            decreases n - i,
        {
            let entry = &self.unloaded_snippets[i];
            let ghost seen = self.unloaded_snippets@.take(i as int);
            let ghost before = open@;
            proof {
                assert(self.unloaded_snippets@.take(i + 1) =~= seen.push(*entry));
                seen.lemma_filter_push(*entry, fresh);
            }
            if !self.is_loaded(&entry.name) {
                let copy = entry.duplicate();
                open.push(copy);
                proof {
                    assert(views_of(open@) =~= views_of(before).push(copy@));
                    assert(views_of(seen.filter(fresh).push(*entry)) =~= views_of(
                        seen.filter(fresh),
                    ).push(entry@));
                }
            }
            i += 1;
        }
        proof {
            assert(self.unloaded_snippets@.take(n as int) =~= self.unloaded_snippets@);
        }
        open
    }

    /// Puts the snippet behind the loaded ones, selects it and starts its
    /// preview anew at the reading `now` of the clock.
    pub fn add_snippet_at(&mut self, snippet: Snippets, now: Instant)
        ensures
            final(self).snippets@ == old(self).snippets@.push(snippet),
            final(self).selected_snippet == Some(old(self).snippets@.len() as usize),
            final(self).start_time == now,
            final(self).unloaded_snippets == old(self).unloaded_snippets,
            final(self).notification == old(self).notification,
            final(self).same_controls(*old(self)),
    {
        self.snippets.push(snippet);
        self.selected_snippet = Some(self.snippets.len() - 1);
        self.start_time = now;
    }

    /// Puts the snippet behind the loaded ones, selects it and starts its
    /// preview anew: `add_snippet_at` with the clock's reading, whatever it
    /// is.
    pub fn add_snippet(&mut self, snippet: Snippets)
        ensures
            final(self).snippets@ == old(self).snippets@.push(snippet),
            final(self).selected_snippet == Some(old(self).snippets@.len() as usize),
            final(self).unloaded_snippets == old(self).unloaded_snippets,
            final(self).notification == old(self).notification,
            final(self).same_controls(*old(self)),
    {
        self.add_snippet_at(snippet, Instant::now());
    }

    /// Puts up a notification with the message, created at the reading
    /// `now` of the clock, in place of any that is up.
    pub fn show_notification_at(&mut self, message: String, now: Instant)
        ensures
            final(self).notification matches Some(n) && n.message == message && n.created_at
                == now && n.duration == crate::notification::NOTIFICATION_MILLIS,
            final(self).same_but_notification(*old(self)),
    {
        self.notification = Some(Notification::created(message, now));
    }

    /// Puts up a notification with the message, in place of any that is up:
    /// `show_notification_at` with the clock's reading, whatever it is.
    pub fn show_notification(&mut self, message: String)
        ensures
            final(self).notification matches Some(n) && n.message == message && n.duration
                == crate::notification::NOTIFICATION_MILLIS,
            final(self).same_but_notification(*old(self)),
    {
        self.show_notification_at(message, Instant::now());
    }

    /// Takes the notification down if, `elapsed_millis` after it was put
    /// up, it is due to go.
    pub fn update_notification_after(&mut self, elapsed_millis: u128)
        ensures
            final(self).notification == match old(self).notification {
                Some(n) => if n.expired_after(elapsed_millis as int) {
                    None
                } else {
                    Some(n)
                },
                None => None,
            },
            final(self).same_but_notification(*old(self)),
    {
        let expired = match &self.notification {
            Some(notification) => notification.is_expired_after(elapsed_millis),
            None => false,
        };
        if expired {
            self.notification = None;
        }
    }

    /// Takes the notification down if it is due to go by the clock as it
    /// stands: what is left is what `update_notification_after` leaves for
    /// the time that the notification has been up, whatever that time is.
    /// A notification that is not taken down is left as it is.
    pub fn update_notification(&mut self)
        ensures
            exists|elapsed_millis: int|
                0 <= elapsed_millis && final(self).notification == #[trigger] old(
                    self,
                ).notification_after(elapsed_millis),
            final(self).notification is None || final(self).notification == old(
                self,
            ).notification,
            final(self).same_but_notification(*old(self)),
    {
        let expired = match &self.notification {
            Some(notification) => notification.is_expired(),
            None => false,
        };
        proof {
            let elapsed_millis = if old(self).notification is Some {
                let up = old(self).notification->0;
                choose|elapsed_millis: int|
                    0 <= elapsed_millis && expired == #[trigger] up.expired_after(elapsed_millis)
            } else {
                0
            };
            assert(0 <= elapsed_millis);
            assert(old(self).notification_after(elapsed_millis) == if expired {
                None
            } else {
                old(self).notification
            });
        }
        if expired {
            self.notification = None;
        }
    }
}

} // verus!
