//! Rich-text ranges.
//!
//! A range addresses a sub-span of text for bold/italic/link formatting; its
//! offset and length are in UTF-16 code units. Inbound posts carry ranges in
//! the chat protocol's representation (`SourceEntity`); the relay converts
//! them to its own (`RichRange`), dropping kinds it does not relay and links
//! whose URL does not parse.

use vstd::prelude::*;

verus! {

/// The style of a rich-text range.
pub enum EntityKind {
    Bold,
    Italic,
    Code,
    Pre { language: Option<String> },
    Underline,
    Strikethrough,
    TextLink { url: String },
    Spoiler,
    Mention,
    Hashtag,
    Url,
}

/// A rich-text range over the final composed text.
pub struct RichRange {
    pub offset: usize,
    pub length: usize,
    pub kind: EntityKind,
}

/// The mathematical model of an `EntityKind`.
pub enum EntityKindView {
    Bold,
    Italic,
    Code,
    Pre { language: Option<Seq<char>> },
    Underline,
    Strikethrough,
    TextLink { url: Seq<char> },
    Spoiler,
    Mention,
    Hashtag,
    Url,
}

/// The mathematical model of a `RichRange`.
pub struct RichRangeView {
    pub offset: int,
    pub length: int,
    pub kind: EntityKindView,
}

impl View for EntityKind {
    type V = EntityKindView;

    open spec fn view(&self) -> EntityKindView {
        match self {
            EntityKind::Bold => EntityKindView::Bold,
            EntityKind::Italic => EntityKindView::Italic,
            EntityKind::Code => EntityKindView::Code,
            EntityKind::Pre { language } => EntityKindView::Pre {
                language: match language {
                    Some(l) => Some(l@),
                    None => None,
                },
            },
            EntityKind::Underline => EntityKindView::Underline,
            EntityKind::Strikethrough => EntityKindView::Strikethrough,
            EntityKind::TextLink { url } => EntityKindView::TextLink { url: url@ },
            EntityKind::Spoiler => EntityKindView::Spoiler,
            EntityKind::Mention => EntityKindView::Mention,
            EntityKind::Hashtag => EntityKindView::Hashtag,
            EntityKind::Url => EntityKindView::Url,
        }
    }
}

impl View for RichRange {
    type V = RichRangeView;

    open spec fn view(&self) -> RichRangeView {
        RichRangeView { offset: self.offset as int, length: self.length as int, kind: self.kind@ }
    }
}

/// The models of a vector of ranges.
pub open spec fn range_views(rs: Seq<RichRange>) -> Seq<RichRangeView> {
    rs.map_values(|r: RichRange| r@)
}

impl EntityKind {
    /// A field-for-field copy.
    pub fn duplicate(&self) -> (r: EntityKind)
        ensures
            r@ == self@,
    {
        match self {
            EntityKind::Bold => EntityKind::Bold,
            EntityKind::Italic => EntityKind::Italic,
            EntityKind::Code => EntityKind::Code,
            EntityKind::Pre { language } => EntityKind::Pre {
                language: match language {
                    Some(l) => Some(l.clone()),
                    None => None,
                },
            },
            EntityKind::Underline => EntityKind::Underline,
            EntityKind::Strikethrough => EntityKind::Strikethrough,
            EntityKind::TextLink { url } => EntityKind::TextLink { url: url.clone() },
            EntityKind::Spoiler => EntityKind::Spoiler,
            EntityKind::Mention => EntityKind::Mention,
            EntityKind::Hashtag => EntityKind::Hashtag,
            EntityKind::Url => EntityKind::Url,
        }
    }
}

impl RichRange {
    /// A field-for-field copy.
    pub fn duplicate(&self) -> (r: RichRange)
        ensures
            r@ == self@,
    {
        RichRange { offset: self.offset, length: self.length, kind: self.kind.duplicate() }
    }
}

/// A rich-text range as the chat protocol delivers it. Offsets and lengths
/// are UTF-16 code units in the source text. `Other` stands for every kind
/// the relay does not carry over.
pub enum SourceEntity {
    Bold { offset: i32, length: i32 },
    Italic { offset: i32, length: i32 },
    Code { offset: i32, length: i32 },
    Pre { offset: i32, length: i32, language: String },
    Underline { offset: i32, length: i32 },
    Strike { offset: i32, length: i32 },
    TextUrl { offset: i32, length: i32, url: String },
    Spoiler { offset: i32, length: i32 },
    Mention { offset: i32, length: i32 },
    Hashtag { offset: i32, length: i32 },
    Url { offset: i32, length: i32 },
    Other,
}

/// What `url::Url::parse` makes of a string: `None` when it is rejected,
/// else the normalized text of the parsed URL. The parse depends on the
/// string alone.
pub uninterp spec fn url_parse_of(s: Seq<char>) -> Option<Seq<char>>;

/// Relies on url::Url::parse (and Url::as_str for the normalized text): it
/// accepts or rejects a URL string, and normalizes it, as a function of the
/// string alone.
#[verifier::external_body]
fn try_parse_url(s: &str) -> (r: Option<String>)
    ensures
        r is Some <==> url_parse_of(s@) is Some,
        r is Some ==> r.unwrap()@ == url_parse_of(s@).unwrap(),
{
    match url::Url::parse(s) {
        Ok(u) => Some(String::from(u.as_str())),
        Err(_) => None,
    }
}

/// What one source range converts to: `None` for kinds the relay drops, for
/// negative offsets or lengths, and for links whose URL does not parse.
pub open spec fn converted_entity(e: SourceEntity) -> Option<RichRangeView> {
    match e {
        SourceEntity::Bold { offset, length } => plain_range(offset, length, EntityKindView::Bold),
        SourceEntity::Italic { offset, length } => plain_range(
            offset,
            length,
            EntityKindView::Italic,
        ),
        SourceEntity::Code { offset, length } => plain_range(offset, length, EntityKindView::Code),
        SourceEntity::Pre { offset, length, language } => plain_range(
            offset,
            length,
            EntityKindView::Pre {
                language: if language@.len() == 0 {
                    None
                } else {
                    Some(language@)
                },
            },
        ),
        SourceEntity::Underline { offset, length } => plain_range(
            offset,
            length,
            EntityKindView::Underline,
        ),
        SourceEntity::Strike { offset, length } => plain_range(
            offset,
            length,
            EntityKindView::Strikethrough,
        ),
        SourceEntity::TextUrl { offset, length, url } => {
            match url_parse_of(url@) {
                Some(u) => plain_range(offset, length, EntityKindView::TextLink { url: u }),
                None => None,
            }
        },
        SourceEntity::Spoiler { offset, length } => plain_range(
            offset,
            length,
            EntityKindView::Spoiler,
        ),
        SourceEntity::Mention { offset, length } => plain_range(
            offset,
            length,
            EntityKindView::Mention,
        ),
        SourceEntity::Hashtag { offset, length } => plain_range(
            offset,
            length,
            EntityKindView::Hashtag,
        ),
        SourceEntity::Url { offset, length } => plain_range(offset, length, EntityKindView::Url),
        SourceEntity::Other => None,
    }
}

/// A range model from raw offset and length, rejecting negative values.
pub open spec fn plain_range(offset: i32, length: i32, kind: EntityKindView) -> Option<
    RichRangeView,
> {
    if offset >= 0 && length >= 0 {
        Some(RichRangeView { offset: offset as int, length: length as int, kind })
    } else {
        None
    }
}

/// The conversion of a whole sequence of source ranges, kept in order with
/// the dropped ones left out.
pub open spec fn convert_seq(es: Seq<SourceEntity>) -> Seq<RichRangeView>
    decreases es.len(),
{
    if es.len() == 0 {
        Seq::empty()
    } else {
        convert_seq(es.drop_last()) + match converted_entity(es.last()) {
            Some(r) => seq![r],
            None => Seq::empty(),
        }
    }
}

proof fn lemma_convert_seq_take_succ(es: Seq<SourceEntity>, i: int)
    requires
        0 <= i < es.len(),
    ensures
        convert_seq(es.take(i + 1)) == convert_seq(es.take(i)) + match converted_entity(es[i]) {
            Some(r) => seq![r],
            None => Seq::<RichRangeView>::empty(),
        },
{
    assert(es.take(i + 1).drop_last() =~= es.take(i));
    assert(es.take(i + 1).last() == es[i]);
}

/// Convert the source representation of a post's ranges to the relay's own,
/// in order, dropping unsupported kinds and unparsable link targets.
pub fn convert_entities(entities: Option<&Vec<SourceEntity>>) -> (r: Vec<RichRange>)
    ensures
        range_views(r@) == match entities {
            Some(es) => convert_seq(es@),
            None => Seq::<RichRangeView>::empty(),
        },
{
    let mut r: Vec<RichRange> = Vec::new();
    let es = match entities {
        Some(es) => es,
        None => {
            proof {
                assert(range_views(r@) =~= Seq::<RichRangeView>::empty());
            }
            return r;
        },
    };
    let n = es.len();
    let mut i: usize = 0;
    proof {
        assert(es@.take(0) =~= Seq::<SourceEntity>::empty());
        assert(range_views(r@) =~= convert_seq(es@.take(0)));
    }
    while i < n
        invariant
            n == es@.len(),
            i <= n,
            range_views(r@) == convert_seq(es@.take(i as int)),
        decreases n - i,
    {
        proof {
            lemma_convert_seq_take_succ(es@, i as int);
        }
        let ghost old_r = r@;
        let converted: Option<RichRange> = convert_one(&es[i]);
        match converted {
            Some(range) => {
                proof {
                    assert(Some(range@) == converted_entity(es@[i as int]));
                }
                r.push(range);
                proof {
                    assert(range_views(r@) =~= range_views(old_r).push(range@));
                    assert(range_views(r@) =~= convert_seq(es@.take(i + 1)));
                }
            },
            None => {
                proof {
                    assert(range_views(r@) =~= convert_seq(es@.take(i + 1)));
                }
            },
        }
        i = i + 1;
    }
    proof {
        assert(es@.take(n as int) =~= es@);
    }
    r
}

/// Convert one source range.
fn convert_one(e: &SourceEntity) -> (r: Option<RichRange>)
    ensures
        match r {
            Some(range) => converted_entity(*e) == Some(range@),
            None => converted_entity(*e) is None,
        },
{
    match e {
        SourceEntity::Bold { offset, length } => make_plain(*offset, *length, EntityKind::Bold),
        SourceEntity::Italic { offset, length } => make_plain(*offset, *length, EntityKind::Italic),
        SourceEntity::Code { offset, length } => make_plain(*offset, *length, EntityKind::Code),
        SourceEntity::Pre { offset, length, language } => {
            let lang: Option<String> = if language.unicode_len() == 0 {
                None
            } else {
                Some(language.clone())
            };
            make_plain(*offset, *length, EntityKind::Pre { language: lang })
        },
        SourceEntity::Underline { offset, length } => make_plain(
            *offset,
            *length,
            EntityKind::Underline,
        ),
        SourceEntity::Strike { offset, length } => make_plain(
            *offset,
            *length,
            EntityKind::Strikethrough,
        ),
        SourceEntity::TextUrl { offset, length, url } => {
            match try_parse_url(url.as_str()) {
                Some(u) => make_plain(*offset, *length, EntityKind::TextLink { url: u }),
                None => None,
            }
        },
        SourceEntity::Spoiler { offset, length } => make_plain(
            *offset,
            *length,
            EntityKind::Spoiler,
        ),
        SourceEntity::Mention { offset, length } => make_plain(
            *offset,
            *length,
            EntityKind::Mention,
        ),
        SourceEntity::Hashtag { offset, length } => make_plain(
            *offset,
            *length,
            EntityKind::Hashtag,
        ),
        SourceEntity::Url { offset, length } => make_plain(*offset, *length, EntityKind::Url),
        SourceEntity::Other => None,
    }
}

/// Build a range from raw offset and length, rejecting negative values.
fn make_plain(offset: i32, length: i32, kind: EntityKind) -> (r: Option<RichRange>)
    ensures
        match r {
            Some(range) => plain_range(offset, length, kind@) == Some(range@),
            None => plain_range(offset, length, kind@) is None,
        },
{
    if offset >= 0 && length >= 0 {
        Some(RichRange { offset: offset as usize, length: length as usize, kind })
    } else {
        None
    }
}

} // verus!
