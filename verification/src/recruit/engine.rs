//! The recruitment pipeline: OCR text to recognised tags, combinations and
//! reply texts.
use vstd::prelude::*;
use crate::text::{to_owned, views};
use super::calc::{calculate_spec, now_timestamp, opt_views, MatchItemV, RecruitData};
use super::format::{
    ai_chunk, concat_all, display_chunk, display_chunks, make_title, response_for_ai,
    sorted_items, title_spec,
};
use super::matcher::{cleaned_text, match_spec, Matcher};
use super::model::tag_order;
use super::calc::normalized_names;

verus! {

/// The recogniser and the recruitment data, loaded once and shared.
pub struct RecruitEngine {
    pub matcher: Matcher,
    pub data: RecruitData,
}

/// A reply of the text interface.
pub struct TagReply {
    pub title: String,
    pub reply: String,
}

/// A reply of the embed interface.
pub struct EmbedReply {
    pub title: String,
    pub chunks: Vec<String>,
    pub msg_type: MsgType,
}

/// Whether a reply reports a result or an error.
#[derive(Clone, Copy, Debug, PartialEq, Eq, Structural)]
pub enum MsgType {
    Success,
    Failure,
}

/// At most this many recognised tags are used.
pub const MAX_OCR_TAGS: usize = 8;

// ---------------------------------------------------------------------------
// Specification
// ---------------------------------------------------------------------------

/// The recognised tags that are used: the first `MAX_OCR_TAGS`.
pub open spec fn used_tags(matches: Seq<Seq<char>>) -> Seq<Seq<char>> {
    if matches.len() > MAX_OCR_TAGS {
        matches.take(MAX_OCR_TAGS as int)
    } else {
        matches
    }
}

/// The reply title for the recognised tags.
pub open spec fn reply_title(data: RecruitData, matches: Seq<Seq<char>>, is_global: bool) -> Seq<char> {
    title_spec(normalized_names(tag_order(data.tags()), used_tags(matches)), is_global, true)
}

/// The combinations of at least four stars (or with a pickup, or
/// guaranteeing a robot) for the recognised tags at `now`.
pub open spec fn reply_items(
    data: RecruitData,
    matches: Seq<Seq<char>>,
    is_global: bool,
    pickup: Option<Seq<Seq<char>>>,
    now: i64,
) -> Seq<MatchItemV> {
    calculate_spec(data, used_tags(matches), is_global, 4, pickup, now)
}

/// The text reply (title, body) for the recognised tags at `now`.
pub open spec fn text_reply(
    data: RecruitData,
    matches: Seq<Seq<char>>,
    is_global: bool,
    pickup: Option<Seq<Seq<char>>>,
    now: i64,
) -> (Seq<char>, Seq<char>) {
    if matches.len() == 0 {
        ("エラー"@, "タグがありません"@)
    } else {
        let items = reply_items(data, matches, is_global, pickup, now);
        (
            reply_title(data, matches, is_global),
            if items.len() == 0 {
                "★4以上になる組み合わせはありません"@
            } else {
                concat_all(sorted_items(items).map_values(|m: MatchItemV| ai_chunk(m)))
            },
        )
    }
}

/// The embed reply (title, chunks, kind) for the recognised tags at `now`.
pub open spec fn embed_reply(data: RecruitData, matches: Seq<Seq<char>>, is_global: bool, now: i64) -> (
    Seq<char>,
    Seq<Seq<char>>,
    MsgType,
) {
    if matches.len() == 0 {
        ("エラー"@, seq!["タグがありません"@], MsgType::Failure)
    } else {
        let items = reply_items(data, matches, is_global, None, now);
        (
            reply_title(data, matches, is_global),
            if items.len() == 0 {
                seq!["★4以上になる組み合わせはありません"@]
            } else {
                sorted_items(items).map_values(|m: MatchItemV| display_chunk(m))
            },
            MsgType::Success,
        )
    }
}

// ---------------------------------------------------------------------------
// Implementation
// ---------------------------------------------------------------------------

impl MsgType {
    /// The embed colour: green for a result, magenta for an error.
    pub fn colour(&self) -> (r: u32)
        ensures
            r == (match *self {
                MsgType::Success => 0x8be02bu32,
                MsgType::Failure => 0xff00ffu32,
            }),
    {
        match self {
            MsgType::Success => 0x8be02b,
            MsgType::Failure => 0xff00ff,
        }
    }
}

impl EmbedReply {
    /// An error reply showing `msg`.
    pub fn error(msg: &str) -> (r: EmbedReply)
        ensures
            r.title@ == "エラー"@,
            views(r.chunks@) == seq![msg@],
            r.msg_type == MsgType::Failure,
    {
        let mut chunks: Vec<String> = Vec::new();
        chunks.push(to_owned(msg));
        assert(views(chunks@) =~= seq![msg@]);
        EmbedReply { title: to_owned("エラー"), chunks, msg_type: MsgType::Failure }
    }
}

/// The first `MAX_OCR_TAGS` of the recognised tags.
fn first_tags(matches: Vec<String>) -> (r: Vec<String>)
    ensures
        views(r@) == used_tags(views(matches@)),
{
    let mut m = matches;
    if m.len() > MAX_OCR_TAGS {
        let ghost before = m@;
        m.truncate(MAX_OCR_TAGS);
        assert(views(m@) =~= views(before).take(MAX_OCR_TAGS as int));
    }
    m
}

/// A one-element list holding `s`.
fn single(s: &str) -> (r: Vec<String>)
    ensures
        views(r@) == seq![s@],
{
    let mut v: Vec<String> = Vec::new();
    v.push(to_owned(s));
    assert(views(v@) =~= seq![s@]);
    v
}

impl RecruitEngine {
    /// The text reply to an OCR text at the instant `now`: the recognised
    /// tags (at most `MAX_OCR_TAGS`), the title, and the combinations of at
    /// least four stars as text, or a notice that there are none. `None`
    /// when the regular-expression engine fails on the text.
    pub fn process_from_ocr_at(&self, ocr_text: &str, pickup: Option<&Vec<String>>, now: i64) -> (r:
        Option<TagReply>)
        ensures
            match cleaned_text(self.matcher@, ocr_text@) {
                None => r is None,
                Some(lines) => r matches Some(t) && (t.title@, t.reply@) == text_reply(
                    self.data,
                    match_spec(self.matcher@, lines).0,
                    match_spec(self.matcher@, lines).1,
                    opt_views(pickup),
                    now,
                ),
            },
    {
        let matched = match self.matcher.match_tag(ocr_text) {
            Some(m) => m,
            None => return None,
        };
        if matched.matches.len() == 0 {
            return Some(TagReply { title: to_owned("エラー"), reply: to_owned("タグがありません") });
        }
        let is_global = matched.is_global;
        let matches = first_tags(matched.matches);
        let results = self.data.calculate_at(&matches, is_global, 4, pickup, now);
        let sorted_input = self.data.normalize_names(&matches);
        let title = make_title(&sorted_input, is_global, true);
        let reply = if results.len() == 0 {
            to_owned("★4以上になる組み合わせはありません")
        } else {
            response_for_ai(results)
        };
        Some(TagReply { title, reply })
    }

    /// The text reply to an OCR text now (see `process_from_ocr_at`).
    pub fn process_from_ocr(&self, ocr_text: &str, pickup: Option<&Vec<String>>) -> (r: Option<
        TagReply,
    >)
        ensures
            match cleaned_text(self.matcher@, ocr_text@) {
                None => r is None,
                Some(lines) => exists|now: i64|
                    r matches Some(t) && (t.title@, t.reply@) == #[trigger] text_reply(
                        self.data,
                        match_spec(self.matcher@, lines).0,
                        match_spec(self.matcher@, lines).1,
                        opt_views(pickup),
                        now,
                    ),
            },
    {
        let now = now_timestamp();
        self.process_from_ocr_at(ocr_text, pickup, now)
    }

    /// The embed reply to an OCR text at the instant `now`: the title and
    /// one chunk per combination of at least four stars, or a notice. `None`
    /// when the regular-expression engine fails on the text.
    pub fn process_for_embed_at(&self, ocr_text: &str, now: i64) -> (r: Option<EmbedReply>)
        ensures
            match cleaned_text(self.matcher@, ocr_text@) {
                None => r is None,
                Some(lines) => r matches Some(e) && (e.title@, views(e.chunks@), e.msg_type)
                    == embed_reply(
                    self.data,
                    match_spec(self.matcher@, lines).0,
                    match_spec(self.matcher@, lines).1,
                    now,
                ),
            },
    {
        let matched = match self.matcher.match_tag(ocr_text) {
            Some(m) => m,
            None => return None,
        };
        if matched.matches.len() == 0 {
            return Some(
                EmbedReply {
                    title: to_owned("エラー"),
                    chunks: single("タグがありません"),
                    msg_type: MsgType::Failure,
                },
            );
        }
        let is_global = matched.is_global;
        let matches = first_tags(matched.matches);
        let results = self.data.calculate_at(&matches, is_global, 4, None, now);
        let sorted_input = self.data.normalize_names(&matches);
        let title = make_title(&sorted_input, is_global, true);
        let chunks = if results.len() == 0 {
            single("★4以上になる組み合わせはありません")
        } else {
            display_chunks(results)
        };
        Some(EmbedReply { title, chunks, msg_type: MsgType::Success })
    }

    /// The embed reply to an OCR text now (see `process_for_embed_at`).
    pub fn process_for_embed(&self, ocr_text: &str) -> (r: Option<EmbedReply>)
        ensures
            match cleaned_text(self.matcher@, ocr_text@) {
                None => r is None,
                Some(lines) => exists|now: i64|
                    r matches Some(e) && (e.title@, views(e.chunks@), e.msg_type) == #[trigger] embed_reply(
                        self.data,
                        match_spec(self.matcher@, lines).0,
                        match_spec(self.matcher@, lines).1,
                        now,
                    ),
            },
    {
        let now = now_timestamp();
        self.process_for_embed_at(ocr_text, now)
    }
}

} // verus!
