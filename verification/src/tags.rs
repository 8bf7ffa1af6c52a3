//! The replay-gain text frames of an ID3 tag.

use vstd::prelude::*;
use id3::frame::ExtendedText;
use id3::Tag;
use id3::TagLike;

verus! {

#[verifier::external_type_specification]
#[verifier::external_body]
pub struct ExTag(Tag);

/// The user-defined text frames of a tag (frames with the identifier `TXXX`
/// whose content is an extended text), each as its description and value, in
/// the order in which the tag holds them.
pub uninterp spec fn extended_entries(tag: Tag) -> Seq<(Seq<char>, Seq<char>)>;

/// The tag's frames whose identifier is not `TXXX` (title, artist, album,
/// pictures and all others), each as its identifier and its content as id3
/// encodes it, in the order in which the tag holds them.
pub uninterp spec fn other_frames(tag: Tag) -> Seq<(Seq<char>, Seq<u8>)>;

/// The tag's `TXXX` frames whose content is not an extended text (id3 lets a
/// program build such frames; it never reads one from a file), each as its
/// content as id3 encodes it, in the order in which the tag holds them.
pub uninterp spec fn odd_txxx_frames(tag: Tag) -> Seq<Seq<u8>>;

/// The text that `TagLike::album` reports for a tag: that of its first `TALB` frame.
pub uninterp spec fn album_text(tag: Tag) -> Option<Seq<char>>;

/// `entries` without those whose description is `description`, order kept.
pub open spec fn without_description(
    entries: Seq<(Seq<char>, Seq<char>)>,
    description: Seq<char>,
) -> Seq<(Seq<char>, Seq<char>)>
    decreases entries.len(),
{
    if entries.len() == 0 {
        entries
    } else if entries[0].0 == description {
        without_description(entries.drop_first(), description)
    } else {
        seq![entries[0]] + without_description(entries.drop_first(), description)
    }
}

/// `entries` with the first entry whose description is `description` taken out.
pub open spec fn without_first(
    entries: Seq<(Seq<char>, Seq<char>)>,
    description: Seq<char>,
) -> Seq<(Seq<char>, Seq<char>)>
    decreases entries.len(),
{
    if entries.len() == 0 {
        entries
    } else if entries[0].0 == description {
        entries.drop_first()
    } else {
        seq![entries[0]] + without_first(entries.drop_first(), description)
    }
}

/// What adding the entry `(description, value)` makes of `entries`: the first
/// entry with the same description leaves, and the new entry comes last.
pub open spec fn with_entry(
    entries: Seq<(Seq<char>, Seq<char>)>,
    description: Seq<char>,
    value: Seq<char>,
) -> Seq<(Seq<char>, Seq<char>)> {
    without_first(entries, description).push((description, value))
}

/// What adding the entry `(description, value)` may make of `before`: the
/// first entry with that description replaced by the new one at the end, or,
/// where a `TXXX` frame of another content was taken out instead, the new
/// entry appended to all of them.
pub open spec fn added(
    before: Seq<(Seq<char>, Seq<char>)>,
    after: Seq<(Seq<char>, Seq<char>)>,
    description: Seq<char>,
    value: Seq<char>,
) -> bool {
    ||| after == with_entry(before, description, value)
    ||| after == before.push((description, value))
}

/// `Tag::new`: a tag without frames.
pub assume_specification<'a>[ Tag::new ]() -> (tag: Tag)
    ensures
        extended_entries(tag) == Seq::<(Seq<char>, Seq<char>)>::empty(),
        other_frames(tag) == Seq::<(Seq<char>, Seq<u8>)>::empty(),
        odd_txxx_frames(tag) == Seq::<Seq<u8>>::empty(),
        album_text(tag) is None,
;

/// `TagLike::remove_extended_text` with a description and no value: every
/// `TXXX` frame with that description leaves the tag; the other `TXXX` frames
/// with an extended text stay in their order, and so does every frame whose
/// identifier is not `TXXX`. Every `TXXX` frame whose content is no extended
/// text leaves too.
#[verifier::external_body]
fn tag_remove_extended_text(tag: &mut Tag, description: &str)
    ensures
        extended_entries(*final(tag)) == without_description(extended_entries(*old(tag)), description@),
        other_frames(*final(tag)) == other_frames(*old(tag)),
        odd_txxx_frames(*final(tag)).len() == 0,
        album_text(*final(tag)) == album_text(*old(tag)),
{
    tag.remove_extended_text(Some(description), None);
}

/// `TagLike::add_frame` with an `ExtendedText`: the first `TXXX` frame that
/// id3 takes for the same key leaves, and the new frame is appended last; the
/// frames whose identifier is not `TXXX` stay as they were. That first frame
/// is the first extended text with the description, unless a `TXXX` frame of
/// another content (an encapsulated object, say) with those bytes as its key
/// comes before it: then that one leaves and every extended text stays. Where
/// the tag holds no `TXXX` frame of another content, the first case holds.
#[verifier::external_body]
fn tag_add_extended_text(tag: &mut Tag, description: &str, value: String)
    ensures
        added(extended_entries(*old(tag)), extended_entries(*final(tag)), description@, value@),
        odd_txxx_frames(*old(tag)).len() == 0 ==> extended_entries(*final(tag)) == with_entry(
            extended_entries(*old(tag)),
            description@,
            value@,
        ),
        odd_txxx_frames(*old(tag)).len() == 0 ==> odd_txxx_frames(*final(tag)).len() == 0,
        other_frames(*final(tag)) == other_frames(*old(tag)),
        album_text(*final(tag)) == album_text(*old(tag)),
{
    tag.add_frame(ExtendedText { description: description.to_string(), value });
}

/// `TagLike::album`: the text of the tag's first `TALB` frame, if any.
#[verifier::external_body]
fn tag_album(tag: &Tag) -> (album: Option<String>)
    ensures
        match album {
            Some(a) => album_text(*tag) == Some(a@),
            None => album_text(*tag) is None,
        },
{
    match tag.album() {
        Some(a) => Some(a.to_string()),
        None => None,
    }
}

/// The descriptions of the replay-gain entries that removal clears: the
/// current ones, the lower-case legacy ones and those of MP3Gain.
pub open spec fn rg_descriptions() -> Seq<Seq<char>> {
    seq![
        "REPLAYGAIN_TRACK_GAIN"@,
        "REPLAYGAIN_TRACK_PEAK"@,
        "REPLAYGAIN_ALBUM_GAIN"@,
        "REPLAYGAIN_ALBUM_PEAK"@,
        "replaygain_reference_loudness"@,
        "replaygain_track_gain"@,
        "replaygain_track_peak"@,
        "replaygain_album_gain"@,
        "replaygain_album_peak"@,
        "MP3GAIN_MINMAX"@,
        "MP3GAIN_ALBUM_MINMAX"@,
    ]
}

/// How many descriptions `rg_descriptions` holds.
pub const RG_DESCRIPTION_COUNT: usize = 11;

/// The `i`-th description of `rg_descriptions`.
pub fn rg_description(i: usize) -> (d: &'static str)
    requires
        i < RG_DESCRIPTION_COUNT,
    ensures
        d@ == rg_descriptions()[i as int],
{
    if i == 0 {
        "REPLAYGAIN_TRACK_GAIN"
    } else if i == 1 {
        "REPLAYGAIN_TRACK_PEAK"
    } else if i == 2 {
        "REPLAYGAIN_ALBUM_GAIN"
    } else if i == 3 {
        "REPLAYGAIN_ALBUM_PEAK"
    } else if i == 4 {
        "replaygain_reference_loudness"
    } else if i == 5 {
        "replaygain_track_gain"
    } else if i == 6 {
        "replaygain_track_peak"
    } else if i == 7 {
        "replaygain_album_gain"
    } else if i == 8 {
        "replaygain_album_peak"
    } else if i == 9 {
        "MP3GAIN_MINMAX"
    } else {
        "MP3GAIN_ALBUM_MINMAX"
    }
}

/// `entries` without those whose description is one of `descriptions`, order kept.
pub open spec fn without_any(
    entries: Seq<(Seq<char>, Seq<char>)>,
    descriptions: Seq<Seq<char>>,
) -> Seq<(Seq<char>, Seq<char>)>
    decreases entries.len(),
{
    if entries.len() == 0 {
        entries
    } else if descriptions.contains(entries[0].0) {
        without_any(entries.drop_first(), descriptions)
    } else {
        seq![entries[0]] + without_any(entries.drop_first(), descriptions)
    }
}

proof fn lemma_without_none(entries: Seq<(Seq<char>, Seq<char>)>)
    ensures
        without_any(entries, Seq::empty()) == entries,
    decreases entries.len(),
{
    if entries.len() > 0 {
        lemma_without_none(entries.drop_first());
        assert(seq![entries[0]] + entries.drop_first() =~= entries);
    }
}

proof fn lemma_without_one_more(
    entries: Seq<(Seq<char>, Seq<char>)>,
    descriptions: Seq<Seq<char>>,
    d: Seq<char>,
)
    ensures
        without_description(without_any(entries, descriptions), d) == without_any(
            entries,
            descriptions.push(d),
        ),
    decreases entries.len(),
{
    if entries.len() > 0 {
        let e = entries[0];
        let rest = entries.drop_first();
        lemma_without_one_more(rest, descriptions, d);
        assert(descriptions.push(d).contains(e.0) == (descriptions.contains(e.0) || e.0 == d)) by {
            if descriptions.push(d).contains(e.0) {
                let k = choose|k: int|
                    0 <= k < descriptions.push(d).len() && descriptions.push(d)[k] == e.0;
                if k < descriptions.len() {
                    assert(descriptions[k] == e.0);
                }
            }
            if descriptions.contains(e.0) {
                let k = choose|k: int| 0 <= k < descriptions.len() && descriptions[k] == e.0;
                assert(descriptions.push(d)[k] == e.0);
            }
            if e.0 == d {
                assert(descriptions.push(d)[descriptions.len() as int] == d);
            }
        }
        if !descriptions.contains(e.0) {
            let kept = seq![e] + without_any(rest, descriptions);
            assert(kept[0] == e);
            assert(kept.drop_first() =~= without_any(rest, descriptions));
        }
    }
}

/// Clears every replay-gain entry (see `rg_descriptions`) from a tag; the
/// other entries stay, in their order, and so does the album.
pub fn remove_rg_tags(tag: &mut Tag)
    ensures
        extended_entries(*final(tag)) == without_any(extended_entries(*old(tag)), rg_descriptions()),
        other_frames(*final(tag)) == other_frames(*old(tag)),
        odd_txxx_frames(*final(tag)).len() == 0,
        album_text(*final(tag)) == album_text(*old(tag)),
{
    let ghost before = extended_entries(*tag);
    proof {
        lemma_without_none(before);
        assert(rg_descriptions().take(0) =~= Seq::<Seq<char>>::empty());
    }
    let mut i: usize = 0;
    while i < RG_DESCRIPTION_COUNT
        invariant
            i <= RG_DESCRIPTION_COUNT,
            extended_entries(*tag) == without_any(before, rg_descriptions().take(i as int)),
            other_frames(*tag) == other_frames(*old(tag)),
            i > 0 ==> odd_txxx_frames(*tag).len() == 0,
            album_text(*tag) == album_text(*old(tag)),
        decreases RG_DESCRIPTION_COUNT - i,
    {
        let d = rg_description(i);
        tag_remove_extended_text(tag, d);
        proof {
            lemma_without_one_more(before, rg_descriptions().take(i as int), d@);
            assert(rg_descriptions().take(i as int).push(d@) =~= rg_descriptions().take(i + 1));
        }
        i = i + 1;
    }
    assert(rg_descriptions().take(RG_DESCRIPTION_COUNT as int) =~= rg_descriptions());
}

/// The replay-gain values to write, as text: the gain in dB and the peak.
pub struct RgTagValues {
    pub gain: String,
    pub peak: String,
}

/// The description of the gain entry, of the album (`ind`) or of the track.
pub open spec fn gain_description(ind: bool) -> Seq<char> {
    if ind {
        "REPLAYGAIN_ALBUM_GAIN"@
    } else {
        "REPLAYGAIN_TRACK_GAIN"@
    }
}

/// The description of the peak entry, of the album (`ind`) or of the track.
pub open spec fn peak_description(ind: bool) -> Seq<char> {
    if ind {
        "REPLAYGAIN_ALBUM_PEAK"@
    } else {
        "REPLAYGAIN_TRACK_PEAK"@
    }
}

/// The text of a gain entry: the value followed by ` dB`.
pub open spec fn gain_text(gain: Seq<char>) -> Seq<char> {
    gain + " dB"@
}

/// What writing replay-gain values makes of the entries of a tag.
pub open spec fn with_rg_values(
    entries: Seq<(Seq<char>, Seq<char>)>,
    gain: Seq<char>,
    peak: Seq<char>,
    ind: bool,
) -> Seq<(Seq<char>, Seq<char>)> {
    with_entry(
        with_entry(entries, gain_description(ind), gain_text(gain)),
        peak_description(ind),
        peak,
    )
}

/// Writes the gain and peak entries into a tag, those of the album where
/// `ind` holds and those of the track otherwise; the gain comes before the
/// peak, both last. In a tag whose `TXXX` frames all hold extended texts (every
/// tag read from a file or made new), each replaces the first entry with its
/// description; otherwise each does as `added` says.
pub fn write_rg_tags(tag: &mut Tag, tags: &RgTagValues, ind: bool)
    ensures
        odd_txxx_frames(*old(tag)).len() == 0 ==> extended_entries(*final(tag)) == with_rg_values(
            extended_entries(*old(tag)),
            tags.gain@,
            tags.peak@,
            ind,
        ),
        odd_txxx_frames(*old(tag)).len() == 0 ==> odd_txxx_frames(*final(tag)).len() == 0,
        exists|middle: Seq<(Seq<char>, Seq<char>)>|
            #[trigger] added(extended_entries(*old(tag)), middle, gain_description(ind), gain_text(tags.gain@))
                && added(middle, extended_entries(*final(tag)), peak_description(ind), tags.peak@),
        other_frames(*final(tag)) == other_frames(*old(tag)),
        album_text(*final(tag)) == album_text(*old(tag)),
{
    let (gain_key, peak_key) = if !ind {
        ("REPLAYGAIN_TRACK_GAIN", "REPLAYGAIN_TRACK_PEAK")
    } else {
        ("REPLAYGAIN_ALBUM_GAIN", "REPLAYGAIN_ALBUM_PEAK")
    };
    let gain = tags.gain.clone().concat(" dB");
    tag_add_extended_text(tag, gain_key, gain);
    let ghost middle = extended_entries(*tag);
    tag_add_extended_text(tag, peak_key, tags.peak.clone());
    assert(added(extended_entries(*old(tag)), middle, gain_description(ind), gain_text(tags.gain@)));
}

/// What reading the tag of a file gave.
pub enum TagRead {
    /// The file's tag.
    Found(Tag),
    /// The file holds no tag.
    NoTag,
    /// The tag could not be read.
    Unreadable,
}

/// The tag to edit for a file: its own, a new one without frames where the
/// file has none, and none where its tag could not be read.
pub fn tag_for_update(read: TagRead) -> (tag: Option<Tag>)
    ensures
        match read {
            TagRead::Found(t) => tag == Some(t),
            TagRead::NoTag => match tag {
                Some(t) => extended_entries(t).len() == 0 && other_frames(t).len() == 0
                    && odd_txxx_frames(t).len() == 0 && album_text(t) is None,
                None => false,
            },
            TagRead::Unreadable => tag is None,
        },
{
    match read {
        TagRead::Found(t) => Some(t),
        TagRead::NoTag => Some(Tag::new()),
        TagRead::Unreadable => None,
    }
}

/// The album of a file: that of its tag, where the tag could be read.
pub fn album_from_read(read: &TagRead) -> (album: Option<String>)
    ensures
        match *read {
            TagRead::Found(t) => match album {
                Some(a) => album_text(t) == Some(a@),
                None => album_text(t) is None,
            },
            _ => album is None,
        },
{
    match read {
        TagRead::Found(t) => tag_album(t),
        _ => None,
    }
}

proof fn lemma_without_any_push(
    entries: Seq<(Seq<char>, Seq<char>)>,
    descriptions: Seq<Seq<char>>,
    e: (Seq<char>, Seq<char>),
)
    ensures
        without_any(entries.push(e), descriptions) == if descriptions.contains(e.0) {
            without_any(entries, descriptions)
        } else {
            without_any(entries, descriptions).push(e)
        },
    decreases entries.len(),
{
    if entries.len() == 0 {
        let one = entries.push(e);
        let none = one.drop_first();
        assert(none.len() == 0);
        assert(without_any(none, descriptions) == none);
        assert(without_any(entries, descriptions) == entries);
        assert(one[0] == e);
        if !descriptions.contains(e.0) {
            assert(seq![e] + none =~= entries.push(e));
        } else {
            assert(none =~= entries);
        }
    } else {
        let rest = entries.drop_first();
        assert(entries.push(e).drop_first() =~= rest.push(e));
        assert(entries.push(e)[0] == entries[0]);
        lemma_without_any_push(rest, descriptions, e);
        if !descriptions.contains(entries[0].0) && !descriptions.contains(e.0) {
            assert(seq![entries[0]] + without_any(rest, descriptions).push(e) =~= (seq![entries[0]]
                + without_any(rest, descriptions)).push(e));
        }
    }
}

proof fn lemma_without_any_without_first(
    entries: Seq<(Seq<char>, Seq<char>)>,
    descriptions: Seq<Seq<char>>,
    d: Seq<char>,
)
    requires
        descriptions.contains(d),
    ensures
        without_any(without_first(entries, d), descriptions) == without_any(entries, descriptions),
    decreases entries.len(),
{
    if entries.len() > 0 {
        let rest = entries.drop_first();
        lemma_without_any_without_first(rest, descriptions, d);
        if entries[0].0 != d {
            let kept = seq![entries[0]] + without_first(rest, d);
            assert(kept[0] == entries[0]);
            assert(kept.drop_first() =~= without_first(rest, d));
        }
    }
}

proof fn lemma_without_first_push(
    entries: Seq<(Seq<char>, Seq<char>)>,
    d: Seq<char>,
    e: (Seq<char>, Seq<char>),
)
    requires
        e.0 != d,
    ensures
        without_first(entries.push(e), d) == without_first(entries, d).push(e),
    decreases entries.len(),
{
    if entries.len() == 0 {
        let one = entries.push(e);
        let none = one.drop_first();
        assert(one[0] == e);
        assert(none.len() == 0);
        assert(without_first(none, d) == none);
        assert(without_first(entries, d) == entries);
        assert(seq![e] + none =~= entries.push(e));
    } else {
        let rest = entries.drop_first();
        assert(entries.push(e).drop_first() =~= rest.push(e));
        assert(entries.push(e)[0] == entries[0]);
        lemma_without_first_push(rest, d, e);
        if entries[0].0 != d {
            assert(seq![entries[0]] + without_first(rest, d).push(e) =~= (seq![entries[0]]
                + without_first(rest, d)).push(e));
        }
    }
}

proof fn lemma_without_any_contains(
    entries: Seq<(Seq<char>, Seq<char>)>,
    descriptions: Seq<Seq<char>>,
)
    ensures
        forall|e: (Seq<char>, Seq<char>)|
            #![trigger without_any(entries, descriptions).contains(e)]
            without_any(entries, descriptions).contains(e) <==> (entries.contains(e)
                && !descriptions.contains(e.0)),
    decreases entries.len(),
{
    if entries.len() > 0 {
        let rest = entries.drop_first();
        lemma_without_any_contains(rest, descriptions);
        let r = without_any(entries, descriptions);
        let rr = without_any(rest, descriptions);
        assert forall|e: (Seq<char>, Seq<char>)|
            r.contains(e) <==> (entries.contains(e) && !descriptions.contains(e.0)) by {
            assert(entries.contains(e) <==> (entries[0] == e || rest.contains(e))) by {
                if entries.contains(e) {
                    let k = choose|k: int| 0 <= k < entries.len() && entries[k] == e;
                    if k > 0 {
                        assert(rest[k - 1] == e);
                    }
                }
                if rest.contains(e) {
                    let k = choose|k: int| 0 <= k < rest.len() && rest[k] == e;
                    assert(entries[k + 1] == e);
                }
                if entries[0] == e {
                    assert(entries.contains(e));
                }
            }
            if !descriptions.contains(entries[0].0) {
                let kept = seq![entries[0]] + rr;
                assert(kept.contains(e) <==> (entries[0] == e || rr.contains(e))) by {
                    if kept.contains(e) {
                        let k = choose|k: int| 0 <= k < kept.len() && kept[k] == e;
                        if k > 0 {
                            assert(rr[k - 1] == e);
                        }
                    }
                    if rr.contains(e) {
                        let k = choose|k: int| 0 <= k < rr.len() && rr[k] == e;
                        assert(kept[k + 1] == e);
                    }
                    if entries[0] == e {
                        assert(kept[0] == e);
                    }
                }
            }
        }
    }
}

/// After removal no entry carries a replay-gain description, and every other
/// entry is still there: an entry is kept exactly when its description is
/// none of `rg_descriptions`.
pub proof fn law_removal_keeps_exactly_the_others(entries: Seq<(Seq<char>, Seq<char>)>)
    ensures
        forall|e: (Seq<char>, Seq<char>)|
            #![trigger without_any(entries, rg_descriptions()).contains(e)]
            without_any(entries, rg_descriptions()).contains(e) <==> (entries.contains(e)
                && !rg_descriptions().contains(e.0)),
{
    lemma_without_any_contains(entries, rg_descriptions());
}

proof fn lemma_without_any_twice(entries: Seq<(Seq<char>, Seq<char>)>, descriptions: Seq<Seq<char>>)
    ensures
        without_any(without_any(entries, descriptions), descriptions) == without_any(
            entries,
            descriptions,
        ),
    decreases entries.len(),
{
    if entries.len() > 0 {
        let rest = entries.drop_first();
        lemma_without_any_twice(rest, descriptions);
        if !descriptions.contains(entries[0].0) {
            let kept = seq![entries[0]] + without_any(rest, descriptions);
            assert(kept[0] == entries[0]);
            assert(kept.drop_first() =~= without_any(rest, descriptions));
        }
    }
}

/// Removing the replay-gain entries a second time changes nothing.
pub proof fn law_removal_idempotent(entries: Seq<(Seq<char>, Seq<char>)>)
    ensures
        without_any(without_any(entries, rg_descriptions()), rg_descriptions()) == without_any(
            entries,
            rg_descriptions(),
        ),
{
    lemma_without_any_twice(entries, rg_descriptions());
}

proof fn lemma_rg_descriptions_hold_written(ind: bool)
    ensures
        rg_descriptions().contains(gain_description(ind)),
        rg_descriptions().contains(peak_description(ind)),
{
    assert(rg_descriptions()[0] == "REPLAYGAIN_TRACK_GAIN"@);
    assert(rg_descriptions()[1] == "REPLAYGAIN_TRACK_PEAK"@);
    assert(rg_descriptions()[2] == "REPLAYGAIN_ALBUM_GAIN"@);
    assert(rg_descriptions()[3] == "REPLAYGAIN_ALBUM_PEAK"@);
}

/// Writing replay-gain values and then removing the replay-gain entries leaves
/// the entries that removal alone would have left: writing adds nothing that
/// removal does not clear.
pub proof fn law_remove_undoes_write(
    entries: Seq<(Seq<char>, Seq<char>)>,
    gain: Seq<char>,
    peak: Seq<char>,
    ind: bool,
)
    ensures
        without_any(with_rg_values(entries, gain, peak, ind), rg_descriptions()) == without_any(
            entries,
            rg_descriptions(),
        ),
{
    let ds = rg_descriptions();
    let gd = gain_description(ind);
    let pd = peak_description(ind);
    lemma_rg_descriptions_hold_written(ind);
    let w1 = without_first(entries, gd);
    let s1 = w1.push((gd, gain_text(gain)));
    let w2 = without_first(s1, pd);
    lemma_without_any_push(w2, ds, (pd, peak));
    lemma_without_any_without_first(s1, ds, pd);
    lemma_without_any_push(w1, ds, (gd, gain_text(gain)));
    lemma_without_any_without_first(entries, ds, gd);
}

/// After a write, the gain and the peak are the last two entries, in this
/// order, behind the earlier entries less the first one of each description.
pub proof fn law_write_puts_values_last(
    entries: Seq<(Seq<char>, Seq<char>)>,
    gain: Seq<char>,
    peak: Seq<char>,
    ind: bool,
)
    ensures
        with_rg_values(entries, gain, peak, ind) == without_first(
            without_first(entries, gain_description(ind)),
            peak_description(ind),
        ).push((gain_description(ind), gain_text(gain))).push((peak_description(ind), peak)),
{
    let gd = gain_description(ind);
    let pd = peak_description(ind);
    reveal_strlit("REPLAYGAIN_TRACK_GAIN");
    reveal_strlit("REPLAYGAIN_TRACK_PEAK");
    reveal_strlit("REPLAYGAIN_ALBUM_GAIN");
    reveal_strlit("REPLAYGAIN_ALBUM_PEAK");
    assert(gd[17] != pd[17]);
    lemma_without_first_push(without_first(entries, gd), pd, (gd, gain_text(gain)));
}

/// Whether some entry carries the description `d`.
pub open spec fn described(entries: Seq<(Seq<char>, Seq<char>)>, d: Seq<char>) -> bool {
    exists|i: int| 0 <= i < entries.len() && #[trigger] entries[i].0 == d
}

/// Whether at most one entry carries the description `d`.
pub open spec fn at_most_once(entries: Seq<(Seq<char>, Seq<char>)>, d: Seq<char>) -> bool {
    forall|i: int, j: int|
        0 <= i < j < entries.len() && #[trigger] entries[i].0 == d ==> #[trigger] entries[j].0 != d
}

proof fn lemma_without_first_drops_the_only(entries: Seq<(Seq<char>, Seq<char>)>, d: Seq<char>)
    requires
        at_most_once(entries, d),
    ensures
        !described(without_first(entries, d), d),
    decreases entries.len(),
{
    if entries.len() > 0 {
        let rest = entries.drop_first();
        if entries[0].0 == d {
            assert forall|i: int| 0 <= i < rest.len() implies rest[i].0 != d by {
                assert(entries[i + 1].0 != d);
            }
        } else {
            assert(at_most_once(rest, d)) by {
                assert forall|i: int, j: int|
                    0 <= i < j < rest.len() && #[trigger] rest[i].0 == d implies #[trigger] rest[j].0
                    != d by {
                    assert(entries[i + 1].0 == d);
                    assert(entries[j + 1] == rest[j]);
                }
            }
            lemma_without_first_drops_the_only(rest, d);
            let r = seq![entries[0]] + without_first(rest, d);
            assert forall|i: int| 0 <= i < r.len() implies r[i].0 != d by {
                if i > 0 {
                    assert(r[i] == without_first(rest, d)[i - 1]);
                }
            }
        }
    }
}

proof fn lemma_without_first_keeps_once(
    entries: Seq<(Seq<char>, Seq<char>)>,
    d: Seq<char>,
    d2: Seq<char>,
)
    requires
        at_most_once(entries, d2),
    ensures
        at_most_once(without_first(entries, d), d2),
    decreases entries.len(),
{
    if entries.len() > 0 {
        let rest = entries.drop_first();
        assert(at_most_once(rest, d2)) by {
            assert forall|i: int, j: int|
                0 <= i < j < rest.len() && #[trigger] rest[i].0 == d2 implies #[trigger] rest[j].0
                != d2 by {
                assert(entries[i + 1].0 == d2);
                assert(entries[j + 1] == rest[j]);
            }
        }
        if entries[0].0 != d {
            lemma_without_first_keeps_once(rest, d, d2);
            lemma_without_first_subset(rest, d);
            let w = without_first(rest, d);
            let r = seq![entries[0]] + w;
            assert forall|i: int, j: int|
                0 <= i < j < r.len() && #[trigger] r[i].0 == d2 implies #[trigger] r[j].0 != d2 by {
                if i == 0 {
                    assert(r[j] == w[j - 1]);
                    let k = choose|k: int| 0 <= k < rest.len() && rest[k] == w[j - 1];
                    assert(entries[k + 1] == rest[k]);
                } else {
                    assert(r[i] == w[i - 1]);
                    assert(r[j] == w[j - 1]);
                }
            }
        }
    }
}

proof fn lemma_without_first_subset(entries: Seq<(Seq<char>, Seq<char>)>, d: Seq<char>)
    ensures
        forall|i: int|
            0 <= i < without_first(entries, d).len() ==> entries.contains(
                #[trigger] without_first(entries, d)[i],
            ),
    decreases entries.len(),
{
    if entries.len() > 0 {
        let rest = entries.drop_first();
        lemma_without_first_subset(rest, d);
        let w = without_first(entries, d);
        assert forall|i: int| 0 <= i < w.len() implies entries.contains(#[trigger] w[i]) by {
            if entries[0].0 == d {
                assert(entries[i + 1] == w[i]);
            } else if i == 0 {
                assert(entries[0] == w[0]);
            } else {
                let v = without_first(rest, d);
                assert(w[i] == v[i - 1]);
                let k = choose|k: int| 0 <= k < rest.len() && rest[k] == v[i - 1];
                assert(entries[k + 1] == rest[k]);
            }
        }
    }
}

proof fn lemma_without_first_undescribed(entries: Seq<(Seq<char>, Seq<char>)>, d: Seq<char>, d2: Seq<char>)
    requires
        !described(entries, d2),
    ensures
        !described(without_first(entries, d), d2),
{
    lemma_without_first_subset(entries, d);
    let w = without_first(entries, d);
    assert forall|i: int| 0 <= i < w.len() implies w[i].0 != d2 by {
        let k = choose|k: int| 0 <= k < entries.len() && entries[k] == w[i];
        assert(entries[k].0 != d2);
    }
}

proof fn lemma_without_first_at_marker(
    front: Seq<(Seq<char>, Seq<char>)>,
    e: (Seq<char>, Seq<char>),
    tail: Seq<(Seq<char>, Seq<char>)>,
)
    requires
        !described(front, e.0),
    ensures
        without_first(front + seq![e] + tail, e.0) == front + tail,
    decreases front.len(),
{
    let all = front + seq![e] + tail;
    if front.len() == 0 {
        assert(all[0] == e);
        assert(all.drop_first() =~= front + tail);
    } else {
        let rest = front.drop_first();
        assert(front[0].0 != e.0);
        assert(!described(rest, e.0)) by {
            assert forall|i: int| 0 <= i < rest.len() implies rest[i].0 != e.0 by {
                assert(front[i + 1].0 != e.0);
            }
        }
        lemma_without_first_at_marker(rest, e, tail);
        assert(all[0] == front[0]);
        assert(all.drop_first() =~= rest + seq![e] + tail);
        assert(seq![front[0]] + (rest + tail) =~= front + tail);
    }
}

/// Last write wins: for a tag that holds each of the gain and peak
/// descriptions (of the album or of the track, as `ind` says) at most once,
/// writing one pair of values and then another leaves what writing the second
/// pair alone leaves; so writing the same values twice is writing them once.
/// (Where a description occurs twice, a write replaces only its first entry.)
pub proof fn law_last_write_wins(
    entries: Seq<(Seq<char>, Seq<char>)>,
    gain1: Seq<char>,
    peak1: Seq<char>,
    gain2: Seq<char>,
    peak2: Seq<char>,
    ind: bool,
)
    requires
        at_most_once(entries, gain_description(ind)),
        at_most_once(entries, peak_description(ind)),
    ensures
        with_rg_values(with_rg_values(entries, gain1, peak1, ind), gain2, peak2, ind)
            == with_rg_values(entries, gain2, peak2, ind),
        with_rg_values(with_rg_values(entries, gain1, peak1, ind), gain1, peak1, ind)
            == with_rg_values(entries, gain1, peak1, ind),
{
    let gd = gain_description(ind);
    let pd = peak_description(ind);
    let w1 = without_first(entries, gd);
    let r = without_first(w1, pd);
    lemma_without_first_drops_the_only(entries, gd);
    lemma_without_first_undescribed(w1, pd, gd);
    lemma_without_first_keeps_once(entries, gd, pd);
    lemma_without_first_drops_the_only(w1, pd);
    assert(!described(r, gd) && !described(r, pd));
    assert forall|g: Seq<char>, p: Seq<char>|
        with_rg_values(with_rg_values(entries, gain1, peak1, ind), g, p, ind) == with_rg_values(
            entries,
            g,
            p,
            ind,
        ) by {
        let ge1 = (gd, gain_text(gain1));
        let pe1 = (pd, peak1);
        law_write_puts_values_last(entries, gain1, peak1, ind);
        law_write_puts_values_last(entries, g, p, ind);
        let first = with_rg_values(entries, gain1, peak1, ind);
        assert(first =~= r + seq![ge1] + seq![pe1]);
        law_write_puts_values_last(first, g, p, ind);
        lemma_without_first_at_marker(r, ge1, seq![pe1]);
        assert(r + seq![pe1] =~= r + seq![pe1] + Seq::<(Seq<char>, Seq<char>)>::empty());
        lemma_without_first_at_marker(r, pe1, Seq::<(Seq<char>, Seq<char>)>::empty());
        assert(r + Seq::<(Seq<char>, Seq<char>)>::empty() =~= r);
    }
}

proof fn lemma_without_any_untouched(entries: Seq<(Seq<char>, Seq<char>)>, descriptions: Seq<Seq<char>>)
    requires
        forall|i: int| 0 <= i < entries.len() ==> !descriptions.contains(#[trigger] entries[i].0),
    ensures
        without_any(entries, descriptions) == entries,
    decreases entries.len(),
{
    if entries.len() > 0 {
        let rest = entries.drop_first();
        assert(!descriptions.contains(entries[0].0));
        assert forall|i: int| 0 <= i < rest.len() implies !descriptions.contains(
            #[trigger] rest[i].0,
        ) by {
            assert(rest[i] == entries[i + 1]);
        }
        lemma_without_any_untouched(rest, descriptions);
        assert(seq![entries[0]] + rest =~= entries);
    }
}

/// Whether two tags agree on everything the library models of them: the
/// extended-text entries, the other `TXXX` frames, the frames other than
/// `TXXX`, and the album.
pub open spec fn same_content(a: Tag, b: Tag) -> bool {
    &&& extended_entries(a) == extended_entries(b)
    &&& odd_txxx_frames(a) == odd_txxx_frames(b)
    &&& other_frames(a) == other_frames(b)
    &&& album_text(a) == album_text(b)
}

/// A tag after `write_rg_tags(tag, values, ind)` on `before`, a tag whose
/// `TXXX` frames all hold extended texts, as that function's contract
/// describes it.
pub open spec fn written(before: Tag, after: Tag, gain: Seq<char>, peak: Seq<char>, ind: bool) -> bool {
    &&& odd_txxx_frames(before).len() == 0
    &&& odd_txxx_frames(after).len() == 0
    &&& extended_entries(after) == with_rg_values(extended_entries(before), gain, peak, ind)
    &&& other_frames(after) == other_frames(before)
    &&& album_text(after) == album_text(before)
}

/// A tag after `remove_rg_tags(tag)` on `before`, as that function's contract
/// describes it.
pub open spec fn cleared(before: Tag, after: Tag) -> bool {
    &&& odd_txxx_frames(after).len() == 0
    &&& extended_entries(after) == without_any(extended_entries(before), rg_descriptions())
    &&& other_frames(after) == other_frames(before)
    &&& album_text(after) == album_text(before)
}

/// Writing replay-gain values into a tag that holds none and removing them
/// again gives back the tag's content: the same entries, the same other
/// frames in the same order, the same album.
pub proof fn law_write_then_remove_restores(
    original: Tag,
    with_values: Tag,
    restored: Tag,
    gain: Seq<char>,
    peak: Seq<char>,
    ind: bool,
)
    requires
        forall|i: int|
            0 <= i < extended_entries(original).len() ==> !rg_descriptions().contains(
                #[trigger] extended_entries(original)[i].0,
            ),
        written(original, with_values, gain, peak, ind),
        cleared(with_values, restored),
    ensures
        same_content(restored, original),
{
    law_remove_undoes_write(extended_entries(original), gain, peak, ind);
    lemma_without_any_untouched(extended_entries(original), rg_descriptions());
    assert(odd_txxx_frames(restored) =~= odd_txxx_frames(original));
}

/// Removing the replay-gain entries of a tag twice leaves the same content as
/// removing them once.
pub proof fn law_remove_twice_is_once(original: Tag, once: Tag, twice: Tag)
    requires
        cleared(original, once),
        cleared(once, twice),
    ensures
        same_content(twice, once),
{
    law_removal_idempotent(extended_entries(original));
    assert(odd_txxx_frames(twice) =~= odd_txxx_frames(once));
}

/// After removal no entry carries any of the eleven replay-gain
/// descriptions: the current upper-case ones, the legacy lower-case ones
/// and those of MP3Gain.
pub proof fn law_removal_clears_every_replay_gain_name(entries: Seq<(Seq<char>, Seq<char>)>)
    ensures
        forall|k: int|
            0 <= k < without_any(entries, rg_descriptions()).len() ==> {
                let d = #[trigger] without_any(entries, rg_descriptions())[k].0;
                &&& d != "REPLAYGAIN_TRACK_GAIN"@
                &&& d != "REPLAYGAIN_TRACK_PEAK"@
                &&& d != "REPLAYGAIN_ALBUM_GAIN"@
                &&& d != "REPLAYGAIN_ALBUM_PEAK"@
                &&& d != "replaygain_reference_loudness"@
                &&& d != "replaygain_track_gain"@
                &&& d != "replaygain_track_peak"@
                &&& d != "replaygain_album_gain"@
                &&& d != "replaygain_album_peak"@
                &&& d != "MP3GAIN_MINMAX"@
                &&& d != "MP3GAIN_ALBUM_MINMAX"@
            },
{
    let ds = rg_descriptions();
    let r = without_any(entries, ds);
    lemma_without_any_contains(entries, ds);
    assert(ds[0] == "REPLAYGAIN_TRACK_GAIN"@);
    assert(ds[1] == "REPLAYGAIN_TRACK_PEAK"@);
    assert(ds[2] == "REPLAYGAIN_ALBUM_GAIN"@);
    assert(ds[3] == "REPLAYGAIN_ALBUM_PEAK"@);
    assert(ds[4] == "replaygain_reference_loudness"@);
    assert(ds[5] == "replaygain_track_gain"@);
    assert(ds[6] == "replaygain_track_peak"@);
    assert(ds[7] == "replaygain_album_gain"@);
    assert(ds[8] == "replaygain_album_peak"@);
    assert(ds[9] == "MP3GAIN_MINMAX"@);
    assert(ds[10] == "MP3GAIN_ALBUM_MINMAX"@);
    assert forall|k: int| 0 <= k < r.len() implies !ds.contains(#[trigger] r[k].0) by {
        assert(r.contains(r[k]));
    }
}

/// Writing album values (`ind`) ends the entries with
/// `REPLAYGAIN_ALBUM_GAIN` holding the gain followed by ` dB`, then
/// `REPLAYGAIN_ALBUM_PEAK` holding the peak; writing track values ends them
/// with `REPLAYGAIN_TRACK_GAIN` and `REPLAYGAIN_TRACK_PEAK` the same way.
pub proof fn law_write_names_its_entries(
    entries: Seq<(Seq<char>, Seq<char>)>,
    gain: Seq<char>,
    peak: Seq<char>,
)
    ensures
        ({
            let w = with_rg_values(entries, gain, peak, true);
            &&& w.len() >= 2
            &&& w[w.len() - 2] == ("REPLAYGAIN_ALBUM_GAIN"@, gain + " dB"@)
            &&& w[w.len() - 1] == ("REPLAYGAIN_ALBUM_PEAK"@, peak)
        }),
        ({
            let w = with_rg_values(entries, gain, peak, false);
            &&& w.len() >= 2
            &&& w[w.len() - 2] == ("REPLAYGAIN_TRACK_GAIN"@, gain + " dB"@)
            &&& w[w.len() - 1] == ("REPLAYGAIN_TRACK_PEAK"@, peak)
        }),
{
    law_write_puts_values_last(entries, gain, peak, true);
    law_write_puts_values_last(entries, gain, peak, false);
}

} // verus!
