//! Smart routing: picking the model tier for a request from the user's last message.
use vstd::prelude::*;
use crate::config::{clone_string, opt_str_view};
use crate::text::{chars_of, contains_str, eq_str, has_sub, lower_chars, lowercase_of, slice_chars, string_of, trim, trim_chars, utf8_len_exceeds};

verus! {

#[derive(Debug, Clone, Copy, PartialEq, Eq, Structural)]
pub enum TaskDifficulty {
    Easy,
    Normal,
    Hard,
}

/// Smart-router settings. The confidence threshold is kept in thousandths
/// (`600` stands for a confidence of 0.6).
#[derive(Debug)]
pub struct SmartRouterConfig {
    pub enabled: bool,
    pub classifier_model: String,
    pub lite_model: String,
    pub primary_model: String,
    pub min_confidence_permille: u16,
}

impl Default for SmartRouterConfig {
    fn default() -> (c: Self)
        ensures
            c.enabled,
            c.classifier_model@ == "gemini-3.5-flash-lite"@,
            c.lite_model@ == "gemini-3.5-flash-lite"@,
            c.primary_model@ == "gemini-3.8-flash"@,
            c.min_confidence_permille == 600,
    {
        SmartRouterConfig {
            enabled: true,
            classifier_model: "gemini-3.5-flash-lite".to_owned(),
            lite_model: "gemini-3.5-flash-lite".to_owned(),
            primary_model: "gemini-3.8-flash".to_owned(),
            min_confidence_permille: 600,
        }
    }
}

/// One chat message as far as routing reads it: its `role` and `content`
/// when they are JSON strings.
#[derive(Debug)]
pub struct ChatMessage {
    pub role: Option<String>,
    pub content: Option<String>,
}

pub open spec fn message_views(m: Seq<ChatMessage>) -> Seq<(Option<Seq<char>>, Option<Seq<char>>)> {
    m.map_values(|x: ChatMessage| (opt_str_view(x.role), opt_str_view(x.content)))
}

/// At most the first `n` characters of `s`.
pub open spec fn prefix_chars(s: Seq<char>, n: nat) -> Seq<char> {
    if s.len() <= n {
        s
    } else {
        s.take(n as int)
    }
}

/// The text of the last user message whose content is not blank, trimmed and
/// cut to 1200 characters (empty when there is none).
pub open spec fn last_user_query(m: Seq<(Option<Seq<char>>, Option<Seq<char>>)>) -> Seq<char>
    decreases m.len(),
{
    if m.len() == 0 {
        seq![]
    } else {
        let (role, content) = m.last();
        if role == Some("user"@) && content is Some && trim(content->0).len() > 0 {
            prefix_chars(trim(content->0), 1200)
        } else {
            last_user_query(m.drop_last())
        }
    }
}

/// How a query is routed before any model is asked.
#[derive(Debug, Clone, Copy, PartialEq, Eq, Structural)]
pub enum QuickRoute {
    /// The query is blank: nothing to classify.
    NoQuery,
    /// A short greeting or a formatting / typo / rename request.
    Easy,
    /// An architecture-scale or multi-file request.
    Hard,
    /// The classifier model has to decide.
    AskModel,
}

pub open spec fn mentions_easy_work(lower: Seq<char>) -> bool {
    has_sub(lower, "hi"@) || has_sub(lower, "hello"@) || has_sub(lower, "typo"@) || has_sub(
        lower,
        "format"@,
    ) || has_sub(lower, "rename"@)
}

pub open spec fn mentions_hard_work(lower: Seq<char>) -> bool {
    has_sub(lower, "architecture"@) || has_sub(lower, "architect"@) || has_sub(lower, "multi-file"@)
        || has_sub(lower, "entire project"@) || has_sub(lower, "refactor whole"@)
}

pub open spec fn quick_route_spec(query: Seq<char>) -> QuickRoute {
    let t = trim(query);
    let lower = lowercase_of(t);
    if t.len() == 0 {
        QuickRoute::NoQuery
    } else if vstd::utf8::encode_utf8(t).len() <= 35 && mentions_easy_work(lower) {
        QuickRoute::Easy
    } else if mentions_hard_work(lower) {
        QuickRoute::Hard
    } else {
        QuickRoute::AskModel
    }
}

/// The model and reasoning effort a classified request is sent with.
pub open spec fn routed_model(cfg: SmartRouterConfig, d: TaskDifficulty) -> (Seq<char>, Option<Seq<char>>) {
    match d {
        TaskDifficulty::Easy => (cfg.lite_model@, None),
        TaskDifficulty::Normal => (cfg.primary_model@, Some("medium"@)),
        TaskDifficulty::Hard => (cfg.primary_model@, Some("high"@)),
    }
}

pub struct SmartRouter;

impl SmartRouter {
    /// The query to classify: the last non-blank user message, trimmed, at most 1200 characters.
    pub fn extract_user_query(messages: &[ChatMessage]) -> (q: String)
        ensures
            q@ == last_user_query(message_views(messages@)),
    {
        let mut i: usize = messages.len();
        assert(message_views(messages@).take(i as int) =~= message_views(messages@));
        while i > 0
            invariant
                i <= messages@.len(),
                last_user_query(message_views(messages@)) == last_user_query(
                    message_views(messages@).take(i as int),
                ),
            decreases i,
        {
            let ghost m = message_views(messages@).take(i as int);
            assert(m.drop_last() =~= message_views(messages@).take(i - 1));
            let msg = &messages[i - 1];
            let is_user = match &msg.role {
                Some(r) => eq_str(&chars_of(r.as_str()), "user"),
                None => false,
            };
            if is_user {
                match &msg.content {
                    Some(c) => {
                        let t = trim_chars(&chars_of(c.as_str()));
                        if t.len() > 0 {
                            if t.len() <= 1200 {
                                return string_of(t.as_slice());
                            } else {
                                let cut = slice_chars(&t, 0, 1200);
                                assert(cut@ =~= t@.take(1200));
                                return string_of(cut.as_slice());
                            }
                        }
                    },
                    None => {},
                }
            }
            i = i - 1;
        }
        assert(message_views(messages@).take(0) =~= Seq::<(Option<Seq<char>>, Option<Seq<char>>)>::empty());
        String::new()
    }

    /// The routing decided without asking a model: blank queries are not
    /// classified, short greetings and formatting requests are easy, and
    /// architecture-scale requests are hard.
    pub fn quick_route(user_query: &str) -> (r: QuickRoute)
        ensures
            r == quick_route_spec(user_query@),
    {
        let t = trim_chars(&chars_of(user_query));
        if t.len() == 0 {
            return QuickRoute::NoQuery;
        }
        let lower = lower_chars(&t);
        if !utf8_len_exceeds(&t, 35) && (contains_str(&lower, "hi") || contains_str(&lower, "hello")
            || contains_str(&lower, "typo") || contains_str(&lower, "format") || contains_str(
            &lower,
            "rename",
        )) {
            return QuickRoute::Easy;
        }
        if contains_str(&lower, "architecture") || contains_str(&lower, "architect") || contains_str(
            &lower,
            "multi-file",
        ) || contains_str(&lower, "entire project") || contains_str(&lower, "refactor whole") {
            return QuickRoute::Hard;
        }
        QuickRoute::AskModel
    }

    /// The model and reasoning effort for a request classified as `d`.
    pub fn route_for(cfg: &SmartRouterConfig, d: TaskDifficulty) -> (r: (String, Option<String>))
        ensures
            (r.0@, opt_str_view(r.1)) == routed_model(*cfg, d),
    {
        match d {
            TaskDifficulty::Easy => (clone_string(&cfg.lite_model), None),
            TaskDifficulty::Normal => (clone_string(&cfg.primary_model), Some("medium".to_owned())),
            TaskDifficulty::Hard => (clone_string(&cfg.primary_model), Some("high".to_owned())),
        }
    }
}

/// A message is a user message with non-blank text.
pub open spec fn is_user_text(x: (Option<Seq<char>>, Option<Seq<char>>)) -> bool {
    x.0 == Some("user"@) && x.1 is Some && trim(x.1->0).len() > 0
}

/// The query routed on is the latest user message with non-blank text:
/// when there is one, the query is that message's trimmed text (cut to 1200
/// characters) and no later message is a user message with non-blank text;
/// when there is none, the query is empty.
pub proof fn law_query_is_latest_user_message(m: Seq<(Option<Seq<char>>, Option<Seq<char>>)>)
    ensures
        (exists|k: int| 0 <= k < m.len() && is_user_text(#[trigger] m[k])) ==> exists|k: int|
            0 <= k < m.len() && is_user_text(#[trigger] m[k]) && last_user_query(m) == prefix_chars(
                trim(m[k].1->0),
                1200,
            ) && forall|j: int| k < j < m.len() ==> !is_user_text(#[trigger] m[j]),
        (forall|k: int| 0 <= k < m.len() ==> !is_user_text(#[trigger] m[k])) ==> last_user_query(m).len()
            == 0,
    decreases m.len(),
{
    if m.len() > 0 {
        let p = m.drop_last();
        law_query_is_latest_user_message(p);
        let last = m.len() - 1;
        if is_user_text(m[last]) {
            assert(last_user_query(m) == prefix_chars(trim(m[last].1->0), 1200));
        } else {
            assert(last_user_query(m) == last_user_query(p));
            if exists|k: int| 0 <= k < m.len() && is_user_text(#[trigger] m[k]) {
                let k0 = choose|k: int| 0 <= k < m.len() && is_user_text(#[trigger] m[k]);
                assert(k0 < last);
                assert(p[k0] == m[k0]);
                let k = choose|k: int|
                    0 <= k < p.len() && is_user_text(#[trigger] p[k]) && last_user_query(p)
                        == prefix_chars(trim(p[k].1->0), 1200) && forall|j: int|
                        k < j < p.len() ==> !is_user_text(#[trigger] p[j]);
                assert(m[k] == p[k]);
                assert forall|j: int| k < j < m.len() implies !is_user_text(#[trigger] m[j]) by {
                    if j < last {
                        assert(m[j] == p[j]);
                    }
                }
            } else {
                assert forall|k: int| 0 <= k < p.len() implies !is_user_text(#[trigger] p[k]) by {
                    assert(p[k] == m[k]);
                }
            }
        }
    }
}

} // verus!
