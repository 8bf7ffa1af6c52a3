use id3::frame::{Content, EncapsulatedObject, ExtendedText};
use id3::{Frame, Tag, TagLike};
use mp3_normalizer::tags::{album_from_read, remove_rg_tags, rg_description, tag_for_update,
    write_rg_tags, RgTagValues, TagRead, RG_DESCRIPTION_COUNT};

fn entries(tag: &Tag) -> Vec<(String, String)> {
    tag.extended_texts().map(|e| (e.description.clone(), e.value.clone())).collect()
}

fn values(gain: &str, peak: &str) -> RgTagValues {
    RgTagValues { gain: gain.to_string(), peak: peak.to_string() }
}

#[test]
fn write_track_values_appends_gain_then_peak() {
    let mut tag = Tag::new();
    tag.add_extended_text("OTHER", "x");
    write_rg_tags(&mut tag, &values("-6.5", "0.9"), false);
    assert_eq!(entries(&tag), vec![
        ("OTHER".to_string(), "x".to_string()),
        ("REPLAYGAIN_TRACK_GAIN".to_string(), "-6.5 dB".to_string()),
        ("REPLAYGAIN_TRACK_PEAK".to_string(), "0.9".to_string()),
    ]);
}

#[test]
fn write_album_values_replaces_earlier_ones() {
    let mut tag = Tag::new();
    tag.add_extended_text("REPLAYGAIN_ALBUM_GAIN", "1 dB");
    tag.add_extended_text("OTHER", "x");
    write_rg_tags(&mut tag, &values("2", "1"), true);
    assert_eq!(entries(&tag), vec![
        ("OTHER".to_string(), "x".to_string()),
        ("REPLAYGAIN_ALBUM_GAIN".to_string(), "2 dB".to_string()),
        ("REPLAYGAIN_ALBUM_PEAK".to_string(), "1".to_string()),
    ]);
}

#[test]
fn remove_clears_every_replay_gain_entry() {
    let mut tag = Tag::new();
    tag.add_frame(Frame::text("TALB", "Album"));
    for i in 0..RG_DESCRIPTION_COUNT {
        tag.add_extended_text(rg_description(i), "v");
    }
    tag.add_extended_text("KEEP", "me");
    remove_rg_tags(&mut tag);
    assert_eq!(entries(&tag), vec![("KEEP".to_string(), "me".to_string())]);
    assert_eq!(tag.album(), Some("Album"));
}

#[test]
fn remove_after_write_leaves_the_rest() {
    let mut tag = Tag::new();
    tag.add_extended_text("KEEP", "me");
    write_rg_tags(&mut tag, &values("3", "0.5"), false);
    write_rg_tags(&mut tag, &values("4", "0.6"), true);
    remove_rg_tags(&mut tag);
    assert_eq!(entries(&tag), vec![("KEEP".to_string(), "me".to_string())]);
    remove_rg_tags(&mut tag);
    assert_eq!(entries(&tag), vec![("KEEP".to_string(), "me".to_string())]);
}

#[test]
fn tag_for_update_by_read_outcome() {
    let mut tag = Tag::new();
    tag.add_extended_text("K", "V");
    let found = tag_for_update(TagRead::Found(tag)).unwrap();
    assert_eq!(entries(&found), vec![("K".to_string(), "V".to_string())]);
    let fresh = tag_for_update(TagRead::NoTag).unwrap();
    assert_eq!(fresh.frames().count(), 0);
    assert!(tag_for_update(TagRead::Unreadable).is_none());
}

#[test]
fn album_from_read_by_read_outcome() {
    let mut tag = Tag::new();
    tag.set_album("Blue");
    assert_eq!(album_from_read(&TagRead::Found(tag)), Some("Blue".to_string()));
    assert_eq!(album_from_read(&TagRead::Found(Tag::new())), None);
    assert_eq!(album_from_read(&TagRead::NoTag), None);
    assert_eq!(album_from_read(&TagRead::Unreadable), None);
}

#[test]
fn descriptions_listed_in_removal_order() {
    assert_eq!(rg_description(0), "REPLAYGAIN_TRACK_GAIN");
    assert_eq!(rg_description(4), "replaygain_reference_loudness");
    assert_eq!(rg_description(10), "MP3GAIN_ALBUM_MINMAX");
}

#[test]
fn other_frames_kept_in_order() {
    let mut tag = Tag::new();
    tag.set_title("Song");
    tag.add_extended_text("REPLAYGAIN_TRACK_GAIN", "1 dB");
    tag.set_artist("Band");
    tag.set_album("Record");
    let before: Vec<Frame> = tag.frames().filter(|f| f.id() != "TXXX").cloned().collect();
    write_rg_tags(&mut tag, &values("-2", "0.7"), false);
    let after_write: Vec<Frame> = tag.frames().filter(|f| f.id() != "TXXX").cloned().collect();
    assert_eq!(after_write, before);
    remove_rg_tags(&mut tag);
    let after_remove: Vec<Frame> = tag.frames().cloned().collect();
    assert_eq!(after_remove, before);
}

#[test]
fn last_write_wins() {
    let mut once = Tag::new();
    once.add_extended_text("KEEP", "me");
    let mut twice = once.clone();
    write_rg_tags(&mut twice, &values("1", "0.1"), true);
    write_rg_tags(&mut twice, &values("5", "0.5"), true);
    write_rg_tags(&mut once, &values("5", "0.5"), true);
    assert_eq!(entries(&twice), entries(&once));
    write_rg_tags(&mut once, &values("5", "0.5"), true);
    assert_eq!(entries(&twice), entries(&once));
}

#[test]
fn odd_txxx_frame_taken_before_extended_text() {
    let odd = Frame::with_content(
        "TXXX",
        Content::EncapsulatedObject(EncapsulatedObject {
            mime_type: String::new(),
            filename: String::new(),
            description: "REPLAYGAIN_TRACK_GAIN".to_string(),
            data: Vec::new(),
        }),
    );
    let text = Frame::from(ExtendedText {
        description: "REPLAYGAIN_TRACK_GAIN".to_string(),
        value: "1 dB".to_string(),
    });
    let mut tag: Tag = vec![odd, text].into_iter().collect();
    write_rg_tags(&mut tag, &values("2", "0.3"), false);
    assert_eq!(entries(&tag), vec![
        ("REPLAYGAIN_TRACK_GAIN".to_string(), "1 dB".to_string()),
        ("REPLAYGAIN_TRACK_GAIN".to_string(), "2 dB".to_string()),
        ("REPLAYGAIN_TRACK_PEAK".to_string(), "0.3".to_string()),
    ]);
    assert_eq!(tag.frames().count(), 3);
    remove_rg_tags(&mut tag);
    assert_eq!(tag.frames().count(), 0);
}
