//! Plain-value views of one tag container, and the fold that builds the
//! per-file summary and the whole-container property context in one pass.
//!
//! The binary container itself is read elsewhere; this module receives each
//! unit of it as plain values and computes everything the output and the
//! filter need: the version, the frame identifiers in order, the legacy
//! record's property names, and the id-to-properties snapshot the filter
//! evaluates against.

use vstd::prelude::*;
use vstd::string::*;
use crate::context::{pairs_map, Container, PropMap};

verus! {

/// The seven textual fields of a legacy tag record.
pub struct V1Record {
    pub album: String,
    pub artist: String,
    pub comment: String,
    pub genre: String,
    pub title: String,
    pub track: String,
    pub year: String,
}

/// The property names a legacy record carries: one fixed name per
/// non-empty field, in a fixed order.
pub open spec fn spec_v1_keys(r: V1Record) -> Seq<Seq<char>> {
    (if r.album@.len() > 0 {
        seq!["album"@]
    } else {
        Seq::empty()
    }) + (if r.artist@.len() > 0 {
        seq!["artist"@]
    } else {
        Seq::empty()
    }) + (if r.comment@.len() > 0 {
        seq!["comment"@]
    } else {
        Seq::empty()
    }) + (if r.genre@.len() > 0 {
        seq!["genre"@]
    } else {
        Seq::empty()
    }) + (if r.title@.len() > 0 {
        seq!["title"@]
    } else {
        Seq::empty()
    }) + (if r.track@.len() > 0 {
        seq!["track"@]
    } else {
        Seq::empty()
    }) + (if r.year@.len() > 0 {
        seq!["year"@]
    } else {
        Seq::empty()
    })
}

/// The property map a legacy record carries: each non-empty field under its
/// fixed name.
pub open spec fn spec_v1_map(r: V1Record) -> Map<Seq<char>, Seq<char>> {
    let m = Map::<Seq<char>, Seq<char>>::empty();
    let m = if r.album@.len() > 0 {
        m.insert("album"@, r.album@)
    } else {
        m
    };
    let m = if r.artist@.len() > 0 {
        m.insert("artist"@, r.artist@)
    } else {
        m
    };
    let m = if r.comment@.len() > 0 {
        m.insert("comment"@, r.comment@)
    } else {
        m
    };
    let m = if r.genre@.len() > 0 {
        m.insert("genre"@, r.genre@)
    } else {
        m
    };
    let m = if r.title@.len() > 0 {
        m.insert("title"@, r.title@)
    } else {
        m
    };
    let m = if r.track@.len() > 0 {
        m.insert("track"@, r.track@)
    } else {
        m
    };
    let m = if r.year@.len() > 0 {
        m.insert("year"@, r.year@)
    } else {
        m
    };
    m
}

/// Append one fixed property name if the field carrying it is non-empty.
fn push_key(ks: &mut Vec<String>, name: &str, field: &String)
    ensures
        final(ks).deep_view() == old(ks).deep_view() + (if field@.len() > 0 {
            seq![name@]
        } else {
            Seq::<Seq<char>>::empty()
        }),
{
    let ghost pre = ks.deep_view();
    if !field.as_str().is_empty() {
        ks.push(String::from_str(name));
        proof {
            assert(ks.deep_view() =~= pre + seq![name@]);
        }
    } else {
        proof {
            assert(ks.deep_view() =~= pre + Seq::<Seq<char>>::empty());
        }
    }
}

/// Record one fixed property if the field carrying it is non-empty.
fn put_prop(pm: &mut PropMap, name: &str, field: &String)
    ensures
        final(pm)@ == if field@.len() > 0 {
            old(pm)@.insert(name@, field@)
        } else {
            old(pm)@
        },
{
    if !field.as_str().is_empty() {
        pm.insert(String::from_str(name), field.clone());
    }
}

/// The property names of a legacy record, in their fixed order.
pub fn v1_keys(r: &V1Record) -> (ks: Vec<String>)
    ensures
        ks.deep_view() == spec_v1_keys(*r),
{
    let mut ks: Vec<String> = Vec::new();
    proof {
        assert(ks.deep_view() =~= Seq::<Seq<char>>::empty());
    }
    push_key(&mut ks, "album", &r.album);
    push_key(&mut ks, "artist", &r.artist);
    push_key(&mut ks, "comment", &r.comment);
    push_key(&mut ks, "genre", &r.genre);
    push_key(&mut ks, "title", &r.title);
    push_key(&mut ks, "track", &r.track);
    push_key(&mut ks, "year", &r.year);
    proof {
        assert(ks.deep_view() =~= spec_v1_keys(*r));
    }
    ks
}

/// The property map of a legacy record.
pub fn v1_props(r: &V1Record) -> (pm: PropMap)
    ensures
        pm@ == spec_v1_map(*r),
{
    let mut pm = PropMap::new();
    put_prop(&mut pm, "album", &r.album);
    put_prop(&mut pm, "artist", &r.artist);
    put_prop(&mut pm, "comment", &r.comment);
    put_prop(&mut pm, "genre", &r.genre);
    put_prop(&mut pm, "title", &r.title);
    put_prop(&mut pm, "track", &r.track);
    put_prop(&mut pm, "year", &r.year);
    pm
}

/// One unit of a parsed container, as plain values.
pub enum UnitView {
    /// The container header, by its rendered version.
    Header(String),
    /// One frame: its identifier and its properties as key/value pairs.
    Frame(String, Vec<(String, String)>),
    /// The legacy record.
    Legacy(V1Record),
    /// A unit the summary does not use.
    Other,
}

/// The version of the last header unit, if any.
pub open spec fn spec_version(us: Seq<UnitView>) -> Option<Seq<char>>
    decreases us.len(),
{
    if us.len() == 0 {
        None
    } else {
        match us.last() {
            UnitView::Header(v) => Some(v@),
            _ => spec_version(us.drop_last()),
        }
    }
}

/// The identifiers of the frame units, in order.
pub open spec fn spec_frame_ids(us: Seq<UnitView>) -> Seq<Seq<char>>
    decreases us.len(),
{
    if us.len() == 0 {
        Seq::empty()
    } else {
        spec_frame_ids(us.drop_last()) + (match us.last() {
            UnitView::Frame(id, _) => seq![id@],
            _ => Seq::empty(),
        })
    }
}

/// The property names of the last legacy unit, if any.
pub open spec fn spec_legacy_keys(us: Seq<UnitView>) -> Option<Seq<Seq<char>>>
    decreases us.len(),
{
    if us.len() == 0 {
        None
    } else {
        match us.last() {
            UnitView::Legacy(r) => Some(spec_v1_keys(r)),
            _ => spec_legacy_keys(us.drop_last()),
        }
    }
}

/// The whole-container snapshot the frame units build up: id to property
/// map, a later frame with the same id overriding an earlier one.
pub open spec fn spec_container(us: Seq<UnitView>) -> Map<Seq<char>, Map<Seq<char>, Seq<char>>>
    decreases us.len(),
{
    if us.len() == 0 {
        Map::empty()
    } else {
        match us.last() {
            UnitView::Frame(id, pairs) => spec_container(us.drop_last()).insert(
                id@,
                pairs_map(pairs@),
            ),
            _ => spec_container(us.drop_last()),
        }
    }
}

/// The per-file summary: the file's name, its version, its frame
/// identifiers in order, and the property names of its legacy record.
pub struct Summary {
    pub file: String,
    pub version: Option<String>,
    pub frames: Option<Vec<String>>,
    pub frame1: Option<Vec<String>>,
}

/// Copy a list of key/value pairs.
fn clone_pairs(pairs: &Vec<(String, String)>) -> (r: Vec<(String, String)>)
    ensures
        r@ == pairs@,
{
    let mut r: Vec<(String, String)> = Vec::new();
    let mut i: usize = 0;
    proof {
        assert(r@ =~= pairs@.take(0));
    }
    while i < pairs.len()
        invariant
            i <= pairs.len(),
            r@ == pairs@.take(i as int),
        decreases pairs.len() - i,
    {
        let e = &pairs[i];
        r.push((e.0.clone(), e.1.clone()));
        proof {
            assert(r@ =~= pairs@.take(i as int + 1));
        }
        i += 1;
    }
    proof {
        assert(pairs@.take(pairs@.len() as int) =~= pairs@);
    }
    r
}

/// Fold the units of one container into its summary and the property
/// context the filter evaluates against.
pub fn summarize(file: String, units: &Vec<UnitView>) -> (r: (Summary, Container))
    ensures
        r.0.file == file,
        r.0.version is Some <==> spec_version(units@) is Some,
        r.0.version matches Some(v) ==> spec_version(units@) matches Some(sv) && v@ == sv,
        r.0.frames is Some <==> spec_frame_ids(units@).len() > 0,
        r.0.frames matches Some(ids) ==> ids.deep_view() == spec_frame_ids(units@),
        r.0.frame1 is Some <==> spec_legacy_keys(units@) is Some,
        r.0.frame1 matches Some(ks) ==> spec_legacy_keys(units@) matches Some(sk) && ks.deep_view()
            == sk,
        r.1@ == spec_container(units@),
{
    let ghost all = units@;
    let mut version: Option<String> = None;
    let mut frame_ids: Vec<String> = Vec::new();
    let mut any_frame: bool = false;
    let mut frame1: Option<Vec<String>> = None;
    let mut container = Container::new();
    let mut i: usize = 0;
    proof {
        assert(all.take(0) =~= Seq::<UnitView>::empty());
        assert(frame_ids.deep_view() =~= Seq::<Seq<char>>::empty());
    }
    while i < units.len()
        invariant
            all == units@,
            i <= units.len(),
            version is Some <==> spec_version(all.take(i as int)) is Some,
            version matches Some(v) ==> spec_version(all.take(i as int)) matches Some(sv) && v@
                == sv,
            frame_ids.deep_view() == spec_frame_ids(all.take(i as int)),
            any_frame <==> spec_frame_ids(all.take(i as int)).len() > 0,
            frame1 is Some <==> spec_legacy_keys(all.take(i as int)) is Some,
            frame1 matches Some(ks) ==> spec_legacy_keys(all.take(i as int)) matches Some(sk)
                && ks.deep_view() == sk,
            container@ == spec_container(all.take(i as int)),
        decreases units.len() - i,
    {
        let ghost pre = all.take(i as int);
        proof {
            assert(all.take(i as int + 1).drop_last() =~= pre);
            assert(all.take(i as int + 1).last() == all[i as int]);
        }
        match &units[i] {
            UnitView::Header(v) => {
                version = Some(v.clone());
            },
            UnitView::Frame(id, pairs) => {
                let ghost pre_ids = frame_ids.deep_view();
                frame_ids.push(id.clone());
                any_frame = true;
                container.insert(id.clone(), PropMap::from_pairs(clone_pairs(pairs)));
                proof {
                    assert(frame_ids.deep_view() =~= pre_ids + seq![id@]);
                }
            },
            UnitView::Legacy(r) => {
                frame1 = Some(v1_keys(r));
            },
            UnitView::Other => {},
        }
        i += 1;
    }
    proof {
        assert(all.take(all.len() as int) =~= all);
    }
    let summary = Summary { file, version, frames: if any_frame {
        Some(frame_ids)
    } else {
        None
    }, frame1 };
    (summary, container)
}

/// The two header flags a summary can report.
#[derive(PartialEq, Eq, Structural, Clone, Copy, Debug)]
pub enum HeadFlagKind {
    Compression,
    Unsynchronisation,
}

/// The header flags present, in their fixed order.
pub open spec fn spec_head_flags(compression: bool, unsynchronisation: bool) -> Seq<HeadFlagKind> {
    (if compression {
        seq![HeadFlagKind::Compression]
    } else {
        Seq::empty()
    }) + (if unsynchronisation {
        seq![HeadFlagKind::Unsynchronisation]
    } else {
        Seq::empty()
    })
}

/// The header flags present, or nothing when none is.
pub fn head_flags(compression: bool, unsynchronisation: bool) -> (r: Option<Vec<HeadFlagKind>>)
    ensures
        r is Some <==> spec_head_flags(compression, unsynchronisation).len() > 0,
        r matches Some(v) ==> v@ == spec_head_flags(compression, unsynchronisation),
{
    let mut v: Vec<HeadFlagKind> = Vec::new();
    if compression {
        v.push(HeadFlagKind::Compression);
    }
    if unsynchronisation {
        v.push(HeadFlagKind::Unsynchronisation);
    }
    proof {
        assert(v@ =~= spec_head_flags(compression, unsynchronisation));
    }
    if v.len() > 0 {
        Some(v)
    } else {
        None
    }
}

/// The eight frame-header flags a frame view can report.
#[derive(PartialEq, Eq, Structural, Clone, Copy, Debug)]
pub enum FrameFlagKind {
    Compression,
    Encryption,
    FileAlter,
    GroupIdentity,
    ReadOnly,
    TagAlter,
    DataLength,
    Unsynchronisation,
}

/// Which of the eight frame-header flags a frame carries.
pub struct FrameFlagSet {
    pub compression: bool,
    pub encryption: bool,
    pub file_alter: bool,
    pub group_identity: bool,
    pub read_only: bool,
    pub tag_alter: bool,
    pub data_length: bool,
    pub unsynchronisation: bool,
}

/// The frame-header flags present, in their fixed order.
pub open spec fn spec_frame_flags(f: FrameFlagSet) -> Seq<FrameFlagKind> {
    (if f.compression {
        seq![FrameFlagKind::Compression]
    } else {
        Seq::empty()
    }) + (if f.encryption {
        seq![FrameFlagKind::Encryption]
    } else {
        Seq::empty()
    }) + (if f.file_alter {
        seq![FrameFlagKind::FileAlter]
    } else {
        Seq::empty()
    }) + (if f.group_identity {
        seq![FrameFlagKind::GroupIdentity]
    } else {
        Seq::empty()
    }) + (if f.read_only {
        seq![FrameFlagKind::ReadOnly]
    } else {
        Seq::empty()
    }) + (if f.tag_alter {
        seq![FrameFlagKind::TagAlter]
    } else {
        Seq::empty()
    }) + (if f.data_length {
        seq![FrameFlagKind::DataLength]
    } else {
        Seq::empty()
    }) + (if f.unsynchronisation {
        seq![FrameFlagKind::Unsynchronisation]
    } else {
        Seq::empty()
    })
}

/// The frame-header flags present, or nothing when none is.
#[verifier::rlimit(60)]
pub fn frame_flags(f: &FrameFlagSet) -> (r: Option<Vec<FrameFlagKind>>)
    ensures
        r is Some <==> spec_frame_flags(*f).len() > 0,
        r matches Some(v) ==> v@ == spec_frame_flags(*f),
{
    let mut v: Vec<FrameFlagKind> = Vec::new();
    if f.compression {
        v.push(FrameFlagKind::Compression);
    }
    if f.encryption {
        v.push(FrameFlagKind::Encryption);
    }
    if f.file_alter {
        v.push(FrameFlagKind::FileAlter);
    }
    if f.group_identity {
        v.push(FrameFlagKind::GroupIdentity);
    }
    if f.read_only {
        v.push(FrameFlagKind::ReadOnly);
    }
    if f.tag_alter {
        v.push(FrameFlagKind::TagAlter);
    }
    if f.data_length {
        v.push(FrameFlagKind::DataLength);
    }
    if f.unsynchronisation {
        v.push(FrameFlagKind::Unsynchronisation);
    }
    proof {
        assert(v@ =~= spec_frame_flags(*f));
    }
    if v.len() > 0 {
        Some(v)
    } else {
        None
    }
}

} // verus!
