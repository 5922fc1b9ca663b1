use vstd::prelude::*;
use vstd::string::*;

verus! {

/// The tags joined by single spaces; no tags give the empty text.
pub open spec fn joined(tags: Seq<Seq<char>>) -> Seq<char>
    decreases tags.len(),
{
    if tags.len() == 0 {
        Seq::empty()
    } else if tags.len() == 1 {
        tags[0]
    } else {
        joined(tags.drop_last()) + seq![' '] + tags.last()
    }
}

/// The pieces of the text between its spaces, in order. There is always one
/// piece more than there are spaces: the empty text gives one empty piece.
pub open spec fn pieces(text: Seq<char>) -> Seq<Seq<char>>
    decreases text.len(),
{
    if text.len() == 0 {
        seq![Seq::empty()]
    } else if text.last() == ' ' {
        pieces(text.drop_last()).push(Seq::empty())
    } else {
        let before = pieces(text.drop_last());
        before.drop_last().push(before.last().push(text.last()))
    }
}

/// Whether the tag holds no space.
pub open spec fn is_one_word(tag: Seq<char>) -> bool {
    forall|i: int| 0 <= i < tag.len() ==> tag[i] != ' '
}

/// A text is cut into at least one piece.
pub proof fn lemma_pieces_nonempty(text: Seq<char>)
    ensures
        pieces(text).len() >= 1,
    decreases text.len(),
{
    if text.len() > 0 {
        lemma_pieces_nonempty(text.drop_last());
    }
}

/// A word added to a text lengthens the text's last piece.
pub proof fn lemma_pieces_of_appended_word(text: Seq<char>, word: Seq<char>)
    requires
        is_one_word(word),
    ensures
        pieces(text + word) == pieces(text).drop_last().push(pieces(text).last() + word),
    decreases word.len(),
{
    lemma_pieces_nonempty(text);
    if word.len() == 0 {
        assert(text + word =~= text);
        assert(pieces(text).last() + word =~= pieces(text).last());
        assert(pieces(text).drop_last().push(pieces(text).last()) =~= pieces(text));
    } else {
        let shorter = word.drop_last();
        assert(is_one_word(shorter));
        lemma_pieces_of_appended_word(text, shorter);
        lemma_pieces_nonempty(text + shorter);
        assert((text + word).drop_last() =~= text + shorter);
        assert((text + word).last() == word.last());
        assert(word.last() != ' ');
        let before = pieces(text + shorter);
        assert(before.last().push(word.last()) =~= pieces(text).last() + word) by {
            assert(before.last() == pieces(text).last() + shorter);
            assert(shorter.push(word.last()) =~= word);
        }
        assert(before.drop_last() =~= pieces(text).drop_last());
    }
}

/// Tags of one word each, at least one of them, come back as they were
/// when they are joined and the text is cut at its spaces again.
pub proof fn lemma_pieces_of_joined(tags: Seq<Seq<char>>)
    requires
        tags.len() >= 1,
        forall|i: int| 0 <= i < tags.len() ==> is_one_word(#[trigger] tags[i]),
    ensures
        pieces(joined(tags)) == tags,
    decreases tags.len(),
{
    if tags.len() == 1 {
        let empty = Seq::<char>::empty();
        lemma_pieces_of_appended_word(empty, tags[0]);
        assert(empty + tags[0] =~= tags[0]);
        assert(pieces(empty) =~= seq![empty]);
        assert(pieces(empty).drop_last().push(pieces(empty).last() + tags[0]) =~= tags);
    } else {
        let head = tags.drop_last();
        assert forall|i: int| 0 <= i < head.len() implies is_one_word(#[trigger] head[i]) by {
            assert(head[i] == tags[i]);
        }
        lemma_pieces_of_joined(head);
        let text = joined(head) + seq![' '];
        assert(text.drop_last() =~= joined(head));
        assert(text.last() == ' ');
        assert(pieces(text) == head.push(Seq::empty()));
        lemma_pieces_of_appended_word(text, tags.last());
        assert(pieces(text).drop_last() =~= head);
        assert(Seq::<char>::empty() + tags.last() =~= tags.last());
        assert(head.push(tags.last()) =~= tags);
    }
}

/// The tags that a text holds: none for the empty text, else the pieces
/// between its spaces.
pub open spec fn tag_list(text: Seq<char>) -> Seq<Seq<char>> {
    if text.len() == 0 {
        Seq::empty()
    } else {
        pieces(text)
    }
}

/// Whether the tags can be told apart again once they are joined: each is
/// one word, and they are not one empty tag alone, which is joined to the
/// empty text as no tags are.
pub open spec fn is_tag_set(tags: Seq<Seq<char>>) -> bool {
    &&& forall|i: int| 0 <= i < tags.len() ==> is_one_word(#[trigger] tags[i])
    &&& !(tags.len() == 1 && tags[0].len() == 0)
}

/// Tags that can be told apart come back as they were when they are joined
/// and the text is read again: no tags as no tags.
pub proof fn lemma_tag_list_of_joined(tags: Seq<Seq<char>>)
    requires
        is_tag_set(tags),
    ensures
        tag_list(joined(tags)) == tags,
{
    if tags.len() == 0 {
        assert(tag_list(joined(tags)) =~= tags);
    } else {
        lemma_pieces_of_joined(tags);
        if tags.len() >= 2 {
            assert(joined(tags) == joined(tags.drop_last()) + seq![' '] + tags.last());
        }
    }
}

/// The tags joined by single spaces.
pub fn join_tags(tags: &Vec<String>) -> (text: String)
    ensures
        text@ == joined(tags.deep_view()),
{
    let ghost all = tags.deep_view();
    let mut text = String::new();
    let n = tags.len();
    let mut i: usize = 0;
    proof {
        assert(all.take(0) =~= Seq::<Seq<char>>::empty());
    }
    while i < n
        invariant
            i <= n,
            n == tags@.len(),
            all == tags.deep_view(),
            text@ == joined(all.take(i as int)),
        decreases n - i,
    {
        if i > 0 {
            text.append(" ");
        }
        text.append(tags[i].as_str());
        proof {
            reveal_strlit(" ");
            let now = all.take(i + 1);
            assert(now.drop_last() =~= all.take(i as int));
            assert(now.last() == tags@[i as int]@);
            assert(" "@ =~= seq![' ']);
            if i == 0 {
                assert(text@ =~= now[0]);
            }
        }
        i += 1;
    }
    proof {
        assert(all.take(n as int) =~= all);
    }
    text
}

/// The pieces of the text between its spaces.
pub fn split_tags(text: &str) -> (tags: Vec<String>)
    ensures
        tags.deep_view() == pieces(text@),
{
    let n = text.unicode_len();
    let mut tags: Vec<String> = Vec::new();
    let mut from: usize = 0;
    let mut i: usize = 0;
    proof {
        assert(text@.take(0) =~= Seq::<char>::empty());
        assert(tags.deep_view().push(text@.subrange(0, 0)) =~= seq![Seq::<char>::empty()]);
    }
    while i < n
        invariant
            from <= i <= n,
            n == text@.len(),
            pieces(text@.take(i as int)) == tags.deep_view().push(
                text@.subrange(from as int, i as int),
            ),
        decreases n - i,
    {
        let c = text.get_char(i);
        let ghost done = tags.deep_view();
        proof {
            let now = text@.take(i + 1);
            assert(now.drop_last() =~= text@.take(i as int));
            assert(now.last() == c);
        }
        if c == ' ' {
            let piece = text.substring_char(from, i);
            tags.push(piece.to_owned());
            from = i + 1;
            proof {
                assert(tags.deep_view() =~= done.push(piece@));
                assert(text@.subrange(from as int, i + 1) =~= Seq::<char>::empty());
            }
        } else {
            proof {
                let open_piece = text@.subrange(from as int, i as int);
                assert(done.push(open_piece).drop_last() =~= done);
                assert(open_piece.push(c) =~= text@.subrange(from as int, i + 1));
            }
        }
        i += 1;
    }
    let piece = text.substring_char(from, n);
    let ghost done = tags.deep_view();
    tags.push(piece.to_owned());
    proof {
        assert(text@.take(n as int) =~= text@);
        assert(tags.deep_view() =~= done.push(piece@));
    }
    tags
}

/// The tags that a text holds: none for the empty text, else the pieces
/// between its spaces.
pub fn read_tags(text: &str) -> (tags: Vec<String>)
    ensures
        tags.deep_view() == tag_list(text@),
{
    if text.unicode_len() == 0 {
        let tags: Vec<String> = Vec::new();
        proof {
            assert(tags.deep_view() =~= Seq::<Seq<char>>::empty());
        }
        tags
    } else {
        split_tags(text)
    }
}

} // verus!
