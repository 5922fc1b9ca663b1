use vstd::prelude::*;
use vstd::string::*;
use crate::error::SnippetError;
use crate::marker::SnippetsMaker;
use crate::objects::{Document, TempoReference};
use crate::snippets::{extracted, is_tempo_choice, Snippets};
use crate::tags::{is_tag_set, join_tags, joined, lemma_tag_list_of_joined, read_tags, tag_list};

verus! {

/// Whether `doc` is the document that persists `snippet` under `name`: the
/// name as its title, the snippet's objects, its lane count, its tags
/// joined by spaces, and its tempo as the only reference, set at time 0.
pub open spec fn is_saved_form(doc: Document, snippet: Snippets, name: Seq<char>) -> bool {
    &&& doc.title@ == name
    &&& doc.objects@ == snippet.hit_objects@
    &&& doc.tags@ == joined(snippet.tags.deep_view())
    &&& doc.lane_count == snippet.keycount
    &&& doc.tempo_references@ == seq![
        TempoReference { time: 0, beat_len_us: snippet.timing_points.beat_len_us },
    ]
}

/// Whether `after` is what loading `doc` makes of the snippet `before`:
/// all is taken from the document, the first tempo reference as the tempo,
/// the tags that its text holds, none for the empty text, and the snippet
/// counts as saved. Only the wish to shuffle stays.
pub open spec fn is_loaded_from(after: Snippets, before: Snippets, doc: Document) -> bool {
    &&& doc.tempo_references@.len() > 0
    &&& after.name@ == doc.title@
    &&& after.hit_objects@ == doc.objects@
    &&& after.timing_points == doc.tempo_references@[0]
    &&& after.tags.deep_view() == tag_list(doc.tags@)
    &&& after.keycount == doc.lane_count
    &&& after.is_saved
    &&& after.should_shuffle == before.should_shuffle
}

impl Snippets {
    /// Captures the window from the timeline that was read, as
    /// `load_snippets_from_beatmap` does. Where reading it failed, the
    /// failure is handed on and the snippet stays as it was.
    pub fn load_snippets_memory_path(
        &mut self,
        beatmap: Result<Document, SnippetError>,
        snippets_maker: &SnippetsMaker,
    ) -> (done: Result<(), SnippetError>)
        ensures
            match beatmap {
                Err(e) => done == Err::<(), SnippetError>(e) && *final(self) == *old(self),
                Ok(doc) => {
                    &&& doc.tempo_references@.len() == 0 ==> done == Err::<(), SnippetError>(
                        SnippetError::NoTempoReference,
                    ) && *final(self) == *old(self)
                    &&& doc.tempo_references@.len() > 0 ==> {
                        &&& done is Ok
                        &&& final(self).hit_objects@ == old(self).hit_objects@ + extracted(
                            doc.objects@,
                            *snippets_maker,
                        )
                        &&& exists|i: int|
                            is_tempo_choice(doc.tempo_references@, *snippets_maker, i)
                                && final(self).timing_points == doc.tempo_references@[i]
                        &&& final(self).keycount == doc.lane_count
                    }
                    &&& final(self).same_labels(*old(self))
                },
            },
    {
        match beatmap {
            Err(e) => Err(e),
            Ok(doc) => self.load_snippets_from_beatmap(&doc, snippets_maker),
        }
    }

    /// Takes the snippet over from the persisted document that was read.
    /// Where reading it failed, the failure is handed on; a document
    /// without a tempo reference is no snippet and counts as undecodable.
    /// Either way the snippet then stays as it was.
    pub fn load_snippets(&mut self, decoded: Result<Document, SnippetError>) -> (done: Result<(), SnippetError>)
        ensures
            match decoded {
                Err(e) => done == Err::<(), SnippetError>(e) && *final(self) == *old(self),
                Ok(doc) => if doc.tempo_references@.len() == 0 {
                    done == Err::<(), SnippetError>(SnippetError::DecodeError) && *final(self)
                        == *old(self)
                } else {
                    done is Ok && is_loaded_from(*final(self), *old(self), doc)
                },
            },
    {
        match decoded {
            Err(e) => Err(e),
            Ok(doc) => {
                if doc.tempo_references.len() == 0 {
                    return Err(SnippetError::DecodeError);
                }
                self.timing_points = doc.tempo_references[0];
                self.tags = read_tags(doc.tags.as_str());
                self.keycount = doc.lane_count;
                self.name = doc.title;
                self.hit_objects = doc.objects;
                self.is_saved = true;
                Ok(())
            },
        }
    }

    /// The document that persists the snippet under `snippets_name`. The
    /// snippet itself changes only once the document is written: see
    /// `confirm_saved`.
    pub fn save_snippets_to_file(&self, snippets_name: &str) -> (doc: Document)
        ensures
            is_saved_form(doc, *self, snippets_name@),
    {
        let mut tempo_references: Vec<TempoReference> = Vec::new();
        tempo_references.push(
            TempoReference { time: 0, beat_len_us: self.timing_points.beat_len_us },
        );
        let objects = self.hit_objects.clone();
        proof {
            assert(objects@ =~= self.hit_objects@);
            assert(tempo_references@ =~= seq![
                TempoReference { time: 0, beat_len_us: self.timing_points.beat_len_us },
            ]);
        }
        Document {
            title: snippets_name.to_owned(),
            tags: join_tags(&self.tags),
            lane_count: self.keycount,
            objects,
            tempo_references,
        }
    }

    /// Records how writing the snippet's document under `snippets_name`
    /// went. After a write the snippet bears that name and counts as saved;
    /// a failure is handed on and leaves the snippet as it was.
    pub fn confirm_saved(&mut self, snippets_name: &str, written: Result<(), SnippetError>) -> (done: Result<(), SnippetError>)
        ensures
            done == written,
            match written {
                Ok(_) => {
                    &&& final(self).name@ == snippets_name@
                    &&& final(self).is_saved
                    &&& final(self).hit_objects == old(self).hit_objects
                    &&& final(self).timing_points == old(self).timing_points
                    &&& final(self).keycount == old(self).keycount
                    &&& final(self).tags == old(self).tags
                    &&& final(self).should_shuffle == old(self).should_shuffle
                },
                Err(_) => *final(self) == *old(self),
            },
    {
        match written {
            Ok(unit) => {
                self.name = snippets_name.to_owned();
                self.is_saved = true;
                Ok(unit)
            },
            Err(e) => Err(e),
        }
    }
}

/// A snippet that is saved and loaded again comes back with its objects,
/// its beat length, its lane count and the name it was saved under. Its
/// tempo comes back set at time 0. Its tags come back as they were, no
/// tags as no tags, where each is one word and they are not one empty tag
/// alone.
pub proof fn lemma_saved_then_loaded(
    snippet: Snippets,
    name: Seq<char>,
    doc: Document,
    before: Snippets,
    after: Snippets,
)
    requires
        is_saved_form(doc, snippet, name),
        is_loaded_from(after, before, doc),
    ensures
        after.name@ == name,
        after.hit_objects@ == snippet.hit_objects@,
        after.timing_points == (TempoReference {
            time: 0,
            beat_len_us: snippet.timing_points.beat_len_us,
        }),
        after.keycount == snippet.keycount,
        after.is_saved,
        is_tag_set(snippet.tags.deep_view()) ==> after.tags.deep_view()
            == snippet.tags.deep_view(),
        snippet.tags@.len() == 0 ==> after.tags@.len() == 0,
{
    let tags = snippet.tags.deep_view();
    if is_tag_set(tags) {
        lemma_tag_list_of_joined(tags);
    }
    if snippet.tags@.len() == 0 {
        assert(is_tag_set(tags));
        lemma_tag_list_of_joined(tags);
        assert(after.tags.deep_view().len() == 0);
    }
}

} // verus!
