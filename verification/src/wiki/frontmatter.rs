//! YAML front matter of wiki markdown files: splitting the header from the
//! body, coercing known mismatches (a string where a list is required, and
//! similar) and describing them as issues, titles and dates.
//!
//! YAML text is read into [`YamlValue`] and a coerced header into
//! [`FrontMatter`] by the YAML codec at the edge; the rules are here.

use vstd::prelude::*;
use crate::models::Error;
use crate::text::{trim, trim_str, to_chars, from_chars, push_all, append_str, decimal, decimal_chars, occurs_at, occurs_at_exec, trim_start_char, starts_with};

verus! {

/// A YAML value as the header's rules see it.
#[derive(Debug)]
pub enum YamlValue {
    Null,
    Bool(bool),
    /// A number, by its text.
    Number(String),
    Str(String),
    Sequence(Vec<YamlValue>),
    /// Entries in document order.
    Mapping(Vec<(YamlValue, YamlValue)>),
    /// A value with a YAML tag.
    Tagged,
}

/// What kind of problem a header has.
#[derive(Clone, Copy, Debug, PartialEq, Eq, Structural)]
pub enum WikiFrontMatterIssueKind {
    /// `tags` or `references` was a single string (or other scalar) instead of a list.
    StringAsList,
    /// A string field was a number/bool and was converted to text.
    ScalarAsString,
    /// The YAML document is not valid YAML.
    InvalidYaml,
    /// A field had a structure Jade cannot use (mapping, nested list, etc.).
    UnsupportedType,
    /// `id` was present but not a UUID.
    InvalidId,
    /// The markdown file could not be read during indexing.
    ReadFailed,
}

/// A problem found in a header, and whether it can be repaired.
#[derive(Clone, Debug)]
pub struct FrontMatterIssue {
    pub kind: WikiFrontMatterIssueKind,
    pub field: Option<String>,
    pub message: String,
    pub line: Option<usize>,
    pub column: Option<usize>,
    pub repairable: bool,
    pub repair_label: Option<String>,
}

/// The fields of a header that Jade uses.
#[derive(Debug)]
pub struct FrontMatter {
    pub id: Option<u128>,
    pub title: Option<String>,
    pub tags: Vec<String>,
    pub summary: Option<String>,
    pub date: Option<String>,
    pub date_added: Option<String>,
    pub author: Option<String>,
    pub url: Option<String>,
    pub source: Option<String>,
    pub references: Vec<String>,
    /// Other keys, kept as they were.
    pub extra: Vec<(String, YamlValue)>,
}

/// What to do with one field of a header.
#[derive(Debug)]
pub enum CoerceAction {
    Unchanged,
    Replace(YamlValue, FrontMatterIssue),
    Remove(FrontMatterIssue),
}

/// Longest scalar shown whole in a message.
pub const PREVIEW_MAX: usize = 64;

/// A scalar as messages quote it: in double quotes, cut to 63 characters
/// and an ellipsis when longer than 64.
pub open spec fn preview(v: Seq<char>) -> Seq<char> {
    if v.len() <= 64 {
        seq!['"'] + v + seq!['"']
    } else {
        seq!['"'] + v.take(63) + seq!['\u{2026}', '"']
    }
}

/// A scalar quoted for a message (see [`preview`]).
pub fn preview_scalar(value: &str) -> (r: String)
    ensures
        r@ == preview(value@),
{
    let v = to_chars(value);
    let mut out: Vec<char> = Vec::new();
    out.push('"');
    if v.len() <= PREVIEW_MAX {
        push_all(&mut out, &v);
        out.push('"');
    } else {
        crate::text::push_range(&mut out, &v, 0, 63);
        out.push('\u{2026}');
        out.push('"');
    }
    from_chars(&out)
}

/// The text of a boolean as YAML writes it.
pub open spec fn bool_text(b: bool) -> Seq<char> {
    if b {
        "true"@
    } else {
        "false"@
    }
}

fn bool_string(b: bool) -> (r: String)
    ensures
        r@ == bool_text(b),
{
    if b {
        from_chars(&to_chars("true"))
    } else {
        from_chars(&to_chars("false"))
    }
}

/// The text of a scalar: a string, a number or a boolean.
pub open spec fn scalar_text(v: YamlValue) -> Option<Seq<char>> {
    match v {
        YamlValue::Str(t) => Some(t@),
        YamlValue::Number(n) => Some(n@),
        YamlValue::Bool(b) => Some(bool_text(b)),
        _ => None,
    }
}

/// The text of a scalar value, if it is one.
pub fn value_as_string(v: &YamlValue) -> (r: Option<String>)
    ensures
        match r {
            Some(s) => scalar_text(*v) == Some(s@),
            None => scalar_text(*v) is None,
        },
{
    match v {
        YamlValue::Str(t) => Some(t.clone()),
        YamlValue::Number(n) => Some(n.clone()),
        YamlValue::Bool(b) => Some(bool_string(*b)),
        _ => None,
    }
}

/// How messages name the kind of a value.
pub open spec fn kind_name(v: YamlValue) -> Seq<char> {
    match v {
        YamlValue::Null => "null"@,
        YamlValue::Bool(_) => "a boolean"@,
        YamlValue::Number(_) => "a number"@,
        YamlValue::Str(_) => "a string"@,
        YamlValue::Sequence(_) => "a list"@,
        YamlValue::Mapping(_) => "a mapping"@,
        YamlValue::Tagged => "a tagged value"@,
    }
}

/// The name of the kind of a value.
pub fn yaml_kind_name(v: &YamlValue) -> (r: &'static str)
    ensures
        r@ == kind_name(*v),
{
    match v {
        YamlValue::Null => "null",
        YamlValue::Bool(_) => "a boolean",
        YamlValue::Number(_) => "a number",
        YamlValue::Str(_) => "a string",
        YamlValue::Sequence(_) => "a list",
        YamlValue::Mapping(_) => "a mapping",
        YamlValue::Tagged => "a tagged value",
    }
}

/// A repairable issue of `kind` about `field`.
fn field_issue(kind: WikiFrontMatterIssueKind, field: &str, message: Vec<char>, label: Vec<char>) -> (r: FrontMatterIssue)
    ensures
        r.kind == kind,
        r.field matches Some(f) && f@ == field@,
        r.message@ == message@,
        r.line is None && r.column is None,
        r.repairable,
        r.repair_label matches Some(l) && l@ == label@,
{
    FrontMatterIssue {
        kind,
        field: Some(from_chars(&to_chars(field))),
        message: from_chars(&message),
        line: None,
        column: None,
        repairable: true,
        repair_label: Some(from_chars(&label)),
    }
}

/// `issue` is repairable, of `kind`, about `field`, with `message` and
/// `label`, and no position.
pub open spec fn issue_is(
    issue: FrontMatterIssue,
    kind: WikiFrontMatterIssueKind,
    field: Seq<char>,
    message: Seq<char>,
    label: Seq<char>,
) -> bool {
    &&& issue.kind == kind
    &&& issue.field matches Some(f) && f@ == field
    &&& issue.message@ == message
    &&& issue.line is None && issue.column is None
    &&& issue.repairable
    &&& issue.repair_label matches Some(l) && l@ == label
}

/// `v` is a sequence of exactly the strings `texts`.
pub open spec fn string_list(v: YamlValue, texts: Seq<Seq<char>>) -> bool {
    v matches YamlValue::Sequence(items) && items@.len() == texts.len()
        && forall|k: int| 0 <= k < items@.len() ==> (#[trigger] items@[k] matches YamlValue::Str(s) && s@ == texts[k])
}

/// The texts a list keeps: the text of each scalar item, in order.
pub open spec fn kept_texts(items: Seq<YamlValue>) -> Seq<Seq<char>>
    decreases items.len(),
{
    if items.len() == 0 {
        Seq::empty()
    } else {
        match scalar_text(items.last()) {
            Some(t) => kept_texts(items.drop_last()).push(t),
            None => kept_texts(items.drop_last()),
        }
    }
}

/// How many items of a list are not scalars.
pub open spec fn dropped_count(items: Seq<YamlValue>) -> nat
    decreases items.len(),
{
    if items.len() == 0 {
        0
    } else {
        dropped_count(items.drop_last()) + if scalar_text(items.last()) is None {
            1nat
        } else {
            0nat
        }
    }
}

/// Some item of a list is a number or a boolean.
pub open spec fn has_nonstring_scalar(items: Seq<YamlValue>) -> bool {
    exists|k: int| 0 <= k < items.len() && scalar_text(#[trigger] items[k]) is Some && !(items[k] is Str)
}

/// What coercing the items of list field `field` does: nothing when every
/// item is a string; else the scalar items as strings, with an issue that
/// counts the dropped items, or says items were converted.
pub open spec fn list_items_action_ok(field: Seq<char>, items: Seq<YamlValue>, a: CoerceAction) -> bool {
    let dropped = dropped_count(items);
    if !has_nonstring_scalar(items) && dropped == 0 {
        a is Unchanged
    } else {
        a matches CoerceAction::Replace(v, issue) && string_list(v, kept_texts(items)) && issue_is(issue,
            WikiFrontMatterIssueKind::ScalarAsString, field, if dropped > 0 {
                "`"@ + field + "` has "@ + decimal(dropped) + " value(s) that aren't text. Jade can keep the text items and drop the rest."@
            } else {
                "`"@ + field + "` has non-text items. Jade can store each item as text."@
            }, "Normalize list items"@)
    }
}

/// Coerces the items of list field `field`: scalars become strings, other
/// items are dropped (see [`list_items_action_ok`]).
pub fn coerce_list_items(field: &str, items: &Vec<YamlValue>) -> (r: CoerceAction)
    ensures
        list_items_action_ok(field@, items@, r),
{
    let mut next: Vec<YamlValue> = Vec::new();
    let mut coerced = false;
    let mut dropped: usize = 0;
    let mut i: usize = 0;
    while i < items.len()
        invariant
            i <= items@.len(),
            string_list(YamlValue::Sequence(next), kept_texts(items@.subrange(0, i as int))),
            dropped == dropped_count(items@.subrange(0, i as int)),
            dropped <= i,
            coerced == has_nonstring_scalar(items@.subrange(0, i as int)),
        decreases items@.len() - i,
    {
        let ghost pre = items@.subrange(0, i as int);
        let ghost nxt = items@.subrange(0, i + 1);
        assert(nxt.drop_last() == pre);
        assert(nxt.last() == items@[i as int]);
        let item = &items[i];
        match value_as_string(item) {
            Some(text) => {
                let is_str = match item {
                    YamlValue::Str(_) => true,
                    _ => false,
                };
                if !is_str {
                    coerced = true;
                }
                let ghost before = next@;
                let ghost tv = text@;
                next.push(YamlValue::Str(text));
                proof {
                    assert(kept_texts(nxt) == kept_texts(pre).push(tv));
                    assert forall|k: int| 0 <= k < next@.len() implies (#[trigger] next@[k] matches YamlValue::Str(s)
                        && s@ == kept_texts(nxt)[k]) by {
                        if k < before.len() {
                            assert(next@[k] == before[k]);
                        }
                    }
                }
            },
            None => {
                dropped += 1;
                assert(kept_texts(nxt) == kept_texts(pre));
            },
        }
        proof {
            if has_nonstring_scalar(nxt) && !has_nonstring_scalar(pre) {
                let k = choose|k: int| 0 <= k < nxt.len() && scalar_text(#[trigger] nxt[k]) is Some && !(nxt[k] is Str);
                if k < i {
                    assert(pre[k] == nxt[k]);
                }
            }
            if has_nonstring_scalar(pre) {
                let k = choose|k: int| 0 <= k < pre.len() && scalar_text(#[trigger] pre[k]) is Some && !(pre[k] is Str);
                assert(nxt[k] == pre[k]);
            }
        }
        i += 1;
    }
    assert(items@.subrange(0, items@.len() as int) == items@);
    if !coerced && dropped == 0 {
        return CoerceAction::Unchanged;
    }
    let mut message: Vec<char> = Vec::new();
    if dropped > 0 {
        append_str(&mut message, "`");
        append_str(&mut message, field);
        append_str(&mut message, "` has ");
        push_all(&mut message, &decimal_chars(dropped));
        append_str(&mut message, " value(s) that aren't text. Jade can keep the text items and drop the rest.");
    } else {
        append_str(&mut message, "`");
        append_str(&mut message, field);
        append_str(&mut message, "` has non-text items. Jade can store each item as text.");
    }
    let issue = field_issue(WikiFrontMatterIssueKind::ScalarAsString, field, message, to_chars("Normalize list items"));
    CoerceAction::Replace(YamlValue::Sequence(next), issue)
}

/// What coercing list field `field` (`tags`, `references`) does with value
/// `v`: null becomes an empty list, a scalar a one-item list, a list has
/// its items coerced, a mapping or tagged value is removed; each change
/// comes with an issue that says so.
pub open spec fn list_action_ok(field: Seq<char>, v: YamlValue, a: CoerceAction) -> bool {
    match v {
        YamlValue::Null => a matches CoerceAction::Replace(n, issue) && string_list(n, Seq::empty())
            && issue_is(issue, WikiFrontMatterIssueKind::StringAsList, field,
                "`"@ + field + "` is empty. Jade can write it as an empty list."@, "Write as an empty list"@),
        YamlValue::Str(t) => a matches CoerceAction::Replace(n, issue) && string_list(n, seq![t@])
            && issue_is(issue, WikiFrontMatterIssueKind::StringAsList, field,
                "`"@ + field + "` is a single value ("@ + preview(t@)
                    + "), but Jade expects a list. It can be wrapped as a one-item list."@, "Wrap as a list"@),
        YamlValue::Number(t) => a matches CoerceAction::Replace(n, issue) && string_list(n, seq![t@])
            && issue_is(issue, WikiFrontMatterIssueKind::StringAsList, field,
                "`"@ + field + "` is the number "@ + t@
                    + ", but Jade expects a list of strings. It can be wrapped as a one-item list."@, "Wrap as a list"@),
        YamlValue::Bool(b) => a matches CoerceAction::Replace(n, issue) && string_list(n, seq![bool_text(b)])
            && issue_is(issue, WikiFrontMatterIssueKind::StringAsList, field,
                "`"@ + field + "` is `"@ + bool_text(b)
                    + "`, but Jade expects a list of strings. It can be wrapped as a one-item list."@, "Wrap as a list"@),
        YamlValue::Sequence(items) => list_items_action_ok(field, items@, a),
        _ => a matches CoerceAction::Remove(issue) && issue_is(issue, WikiFrontMatterIssueKind::UnsupportedType, field,
            "`"@ + field + "` is not a list of strings, so Jade can't use it. The field can be removed so the rest of the header still works."@,
            "Remove `"@ + field + "`"@),
    }
}

fn one_string(t: String) -> (r: YamlValue)
    ensures
        string_list(r, seq![t@]),
{
    let mut items: Vec<YamlValue> = Vec::new();
    items.push(YamlValue::Str(t));
    YamlValue::Sequence(items)
}

/// Coerces list field `field` (see [`list_action_ok`]).
pub fn coerce_list_field(field: &str, v: &YamlValue) -> (r: CoerceAction)
    ensures
        list_action_ok(field@, *v, r),
{
    match v {
        YamlValue::Null => {
            let mut m: Vec<char> = Vec::new();
            append_str(&mut m, "`");
            append_str(&mut m, field);
            append_str(&mut m, "` is empty. Jade can write it as an empty list.");
            let issue = field_issue(WikiFrontMatterIssueKind::StringAsList, field, m, to_chars("Write as an empty list"));
            CoerceAction::Replace(YamlValue::Sequence(Vec::new()), issue)
        },
        YamlValue::Str(text) => {
            let p = preview_scalar(text.as_str());
            let mut m: Vec<char> = Vec::new();
            append_str(&mut m, "`");
            append_str(&mut m, field);
            append_str(&mut m, "` is a single value (");
            append_str(&mut m, p.as_str());
            append_str(&mut m, "), but Jade expects a list. It can be wrapped as a one-item list.");
            let issue = field_issue(WikiFrontMatterIssueKind::StringAsList, field, m, to_chars("Wrap as a list"));
            CoerceAction::Replace(one_string(text.clone()), issue)
        },
        YamlValue::Number(text) => {
            let mut m: Vec<char> = Vec::new();
            append_str(&mut m, "`");
            append_str(&mut m, field);
            append_str(&mut m, "` is the number ");
            append_str(&mut m, text.as_str());
            append_str(&mut m, ", but Jade expects a list of strings. It can be wrapped as a one-item list.");
            let issue = field_issue(WikiFrontMatterIssueKind::StringAsList, field, m, to_chars("Wrap as a list"));
            CoerceAction::Replace(one_string(text.clone()), issue)
        },
        YamlValue::Bool(b) => {
            let text = bool_string(*b);
            let mut m: Vec<char> = Vec::new();
            append_str(&mut m, "`");
            append_str(&mut m, field);
            append_str(&mut m, "` is `");
            append_str(&mut m, text.as_str());
            append_str(&mut m, "`, but Jade expects a list of strings. It can be wrapped as a one-item list.");
            let issue = field_issue(WikiFrontMatterIssueKind::StringAsList, field, m, to_chars("Wrap as a list"));
            CoerceAction::Replace(one_string(text), issue)
        },
        YamlValue::Sequence(items) => coerce_list_items(field, items),
        _ => {
            let mut m: Vec<char> = Vec::new();
            append_str(&mut m, "`");
            append_str(&mut m, field);
            append_str(&mut m, "` is not a list of strings, so Jade can't use it. The field can be removed so the rest of the header still works.");
            let mut l: Vec<char> = Vec::new();
            append_str(&mut l, "Remove `");
            append_str(&mut l, field);
            append_str(&mut l, "`");
            CoerceAction::Remove(field_issue(WikiFrontMatterIssueKind::UnsupportedType, field, m, l))
        },
    }
}

/// What coercing text field `field` does with value `v`: null and strings
/// stay; a number or boolean becomes its text; anything else is removed;
/// each change comes with an issue that says so.
pub open spec fn string_action_ok(field: Seq<char>, v: YamlValue, a: CoerceAction) -> bool {
    match v {
        YamlValue::Null => a is Unchanged,
        YamlValue::Str(_) => a is Unchanged,
        YamlValue::Number(t) => a matches CoerceAction::Replace(n, issue) && (n matches YamlValue::Str(s) && s@ == t@)
            && issue_is(issue, WikiFrontMatterIssueKind::ScalarAsString, field,
                "`"@ + field + "` is the number "@ + t@ + ". Jade can store it as text."@, "Store as text"@),
        YamlValue::Bool(b) => a matches CoerceAction::Replace(n, issue) && (n matches YamlValue::Str(s) && s@ == bool_text(b))
            && issue_is(issue, WikiFrontMatterIssueKind::ScalarAsString, field,
                "`"@ + field + "` is `"@ + bool_text(b) + "`. Jade can store it as text."@, "Store as text"@),
        _ => a matches CoerceAction::Remove(issue) && issue_is(issue, WikiFrontMatterIssueKind::UnsupportedType, field,
            "`"@ + field + "` is not a single text value, so Jade can't use it. The field can be removed so the rest of the header still works."@,
            "Remove `"@ + field + "`"@),
    }
}

/// Coerces text field `field` (see [`string_action_ok`]).
pub fn coerce_string_field(field: &str, v: &YamlValue) -> (r: CoerceAction)
    ensures
        string_action_ok(field@, *v, r),
{
    match v {
        YamlValue::Null => CoerceAction::Unchanged,
        YamlValue::Str(_) => CoerceAction::Unchanged,
        YamlValue::Number(text) => {
            let mut m: Vec<char> = Vec::new();
            append_str(&mut m, "`");
            append_str(&mut m, field);
            append_str(&mut m, "` is the number ");
            append_str(&mut m, text.as_str());
            append_str(&mut m, ". Jade can store it as text.");
            let issue = field_issue(WikiFrontMatterIssueKind::ScalarAsString, field, m, to_chars("Store as text"));
            CoerceAction::Replace(YamlValue::Str(text.clone()), issue)
        },
        YamlValue::Bool(b) => {
            let text = bool_string(*b);
            let mut m: Vec<char> = Vec::new();
            append_str(&mut m, "`");
            append_str(&mut m, field);
            append_str(&mut m, "` is `");
            append_str(&mut m, text.as_str());
            append_str(&mut m, "`. Jade can store it as text.");
            let issue = field_issue(WikiFrontMatterIssueKind::ScalarAsString, field, m, to_chars("Store as text"));
            CoerceAction::Replace(YamlValue::Str(text), issue)
        },
        _ => {
            let mut m: Vec<char> = Vec::new();
            append_str(&mut m, "`");
            append_str(&mut m, field);
            append_str(&mut m, "` is not a single text value, so Jade can't use it. The field can be removed so the rest of the header still works.");
            let mut l: Vec<char> = Vec::new();
            append_str(&mut l, "Remove `");
            append_str(&mut l, field);
            append_str(&mut l, "`");
            CoerceAction::Remove(field_issue(WikiFrontMatterIssueKind::UnsupportedType, field, m, l))
        },
    }
}

/// What `uuid` makes of a text: the id it reads, or nothing.
pub uninterp spec fn uuid_parse(text: Seq<char>) -> Option<u128>;

/// The id a text reads as (`uuid::Uuid::parse_str`, as its 128-bit value),
/// or nothing; which texts are accepted is `uuid`'s, named by
/// [`uuid_parse`].
#[verifier::external_body]
pub(crate) fn parse_uuid(text: &str) -> (r: Option<u128>)
    ensures
        r == uuid_parse(text@),
{
    match uuid::Uuid::parse_str(text) {
        Ok(u) => Some(u.as_u128()),
        Err(_) => None,
    }
}

/// How an invalid `id` is described: its text quoted, or the kind of value.
pub open spec fn id_preview(v: YamlValue) -> Seq<char> {
    match scalar_text(v) {
        Some(t) => preview(t),
        None => kind_name(v),
    }
}

/// What coercing the `id` field does with value `v`: null and strings that
/// read as a UUID (trimmed) stay; anything else is removed, with an issue
/// that says a new id can be assigned.
pub open spec fn id_action_ok(v: YamlValue, a: CoerceAction) -> bool {
    let keep = v is Null || (v matches YamlValue::Str(t) && uuid_parse(trim(t@)) is Some);
    if keep {
        a is Unchanged
    } else {
        a matches CoerceAction::Remove(issue) && issue_is(issue, WikiFrontMatterIssueKind::InvalidId, "id"@,
            "`id` is "@ + id_preview(v) + ", which is not a UUID. Jade can drop it and assign a new one."@,
            "Assign a new id"@)
    }
}

/// Coerces the `id` field (see [`id_action_ok`]).
pub fn coerce_id_field(v: &YamlValue) -> (r: CoerceAction)
    ensures
        id_action_ok(*v, r),
{
    let keep = match v {
        YamlValue::Null => true,
        YamlValue::Str(t) => parse_uuid(trim_str(t.as_str()).as_str()).is_some(),
        _ => false,
    };
    if keep {
        return CoerceAction::Unchanged;
    }
    let p = match value_as_string(v) {
        Some(text) => preview_scalar(text.as_str()),
        None => from_chars(&to_chars(yaml_kind_name(v))),
    };
    let mut m: Vec<char> = Vec::new();
    append_str(&mut m, "`id` is ");
    append_str(&mut m, p.as_str());
    append_str(&mut m, ", which is not a UUID. Jade can drop it and assign a new one.");
    CoerceAction::Remove(field_issue(WikiFrontMatterIssueKind::InvalidId, "id", m, to_chars("Assign a new id")))
}


/// The rule a header field follows.
#[derive(Clone, Copy, Debug, PartialEq, Eq, Structural)]
pub enum FieldRule {
    /// `tags` and `references`: a list of strings.
    List,
    /// A single text value.
    Text,
    /// `id`: a UUID.
    Id,
}

/// What coercing a field under `rule` does with value `v`.
pub open spec fn action_ok(rule: FieldRule, field: Seq<char>, v: YamlValue, a: CoerceAction) -> bool {
    match rule {
        FieldRule::List => list_action_ok(field, v, a),
        FieldRule::Text => string_action_ok(field, v, a),
        FieldRule::Id => id_action_ok(v, a),
    }
}

/// The fields of a header in the order they are coerced: the lists, the
/// text fields, then `id`.
pub open spec fn coerced_field(k: int) -> (Seq<char>, FieldRule) {
    if k == 0 {
        ("tags"@, FieldRule::List)
    } else if k == 1 {
        ("references"@, FieldRule::List)
    } else if k == 2 {
        ("title"@, FieldRule::Text)
    } else if k == 3 {
        ("summary"@, FieldRule::Text)
    } else if k == 4 {
        ("date"@, FieldRule::Text)
    } else if k == 5 {
        ("date_added"@, FieldRule::Text)
    } else if k == 6 {
        ("author"@, FieldRule::Text)
    } else if k == 7 {
        ("url"@, FieldRule::Text)
    } else if k == 8 {
        ("source"@, FieldRule::Text)
    } else {
        ("id"@, FieldRule::Id)
    }
}

/// How many fields are coerced.
pub open spec fn coerced_count() -> int {
    10
}

/// `k` is the string key `field`.
pub open spec fn key_is(k: YamlValue, field: Seq<char>) -> bool {
    k matches YamlValue::Str(s) && s@ == field
}

/// Entry `i` of `m` is the first with key `field`.
pub open spec fn key_at(m: Seq<(YamlValue, YamlValue)>, field: Seq<char>, i: int) -> bool {
    &&& 0 <= i < m.len()
    &&& key_is(m[i].0, field)
    &&& forall|j: int| 0 <= j < i ==> !key_is(#[trigger] m[j].0, field)
}

/// No entry of `m` has key `field`.
pub open spec fn no_key(m: Seq<(YamlValue, YamlValue)>, field: Seq<char>) -> bool {
    forall|j: int| 0 <= j < m.len() ==> !key_is(#[trigger] m[j].0, field)
}

/// `m` with entry `i` removed, the last entry taking its place.
pub open spec fn swap_removed(m: Seq<(YamlValue, YamlValue)>, i: int) -> Seq<(YamlValue, YamlValue)> {
    m.update(i, m.last()).drop_last()
}

/// Action `a` on entry `i` turns (`m`, `is`) into (`m2`, `is2`): a new
/// value keeps the entry's key and place; a removal puts the last entry in
/// its place; each change appends its issue.
pub open spec fn applied(
    m: Seq<(YamlValue, YamlValue)>,
    is: Seq<FrontMatterIssue>,
    i: int,
    a: CoerceAction,
    m2: Seq<(YamlValue, YamlValue)>,
    is2: Seq<FrontMatterIssue>,
) -> bool {
    match a {
        CoerceAction::Unchanged => m2 == m && is2 == is,
        CoerceAction::Replace(v, issue) => m2 == m.update(i, (m[i].0, v)) && is2 == is.push(issue),
        CoerceAction::Remove(issue) => m2 == swap_removed(m, i) && is2 == is.push(issue),
    }
}

/// Coercing field `field` under `rule` turns (`m`, `is`) into (`m2`, `is2`):
/// nothing when no entry has the key; else the field's action on the first
/// entry with it.
pub open spec fn step_ok(
    rule: FieldRule,
    field: Seq<char>,
    m: Seq<(YamlValue, YamlValue)>,
    is: Seq<FrontMatterIssue>,
    m2: Seq<(YamlValue, YamlValue)>,
    is2: Seq<FrontMatterIssue>,
) -> bool {
    if no_key(m, field) {
        m2 == m && is2 == is
    } else {
        exists|i: int, a: CoerceAction| key_at(m, field, i) && #[trigger] action_ok(rule, field, m[i].1, a)
            && applied(m, is, i, a, m2, is2)
    }
}

/// Coercing the fields from the `k`-th on turns (`m`, `is`) into
/// (`mf`, `isf`).
pub open spec fn chain_ok(
    k: int,
    m: Seq<(YamlValue, YamlValue)>,
    is: Seq<FrontMatterIssue>,
    mf: Seq<(YamlValue, YamlValue)>,
    isf: Seq<FrontMatterIssue>,
) -> bool
    decreases coerced_count() - k,
{
    if k >= coerced_count() {
        mf == m && isf == is
    } else {
        exists|m2: Seq<(YamlValue, YamlValue)>, is2: Seq<FrontMatterIssue>|
            #[trigger] step_ok(coerced_field(k).1, coerced_field(k).0, m, is, m2, is2)
                && chain_ok(k + 1, m2, is2, mf, isf)
    }
}

/// The index of the first entry of `map` with key `field`, if any.
fn find_key(map: &Vec<(YamlValue, YamlValue)>, field: &str) -> (r: Option<usize>)
    ensures
        match r {
            Some(i) => key_at(map@, field@, i as int),
            None => no_key(map@, field@),
        },
{
    let mut i: usize = 0;
    while i < map.len()
        invariant
            i <= map@.len(),
            forall|j: int| 0 <= j < i ==> !key_is(#[trigger] map@[j].0, field@),
        decreases map@.len() - i,
    {
        let hit = match &map[i].0 {
            YamlValue::Str(s) => crate::text::str_eq(s.as_str(), field),
            _ => false,
        };
        if hit {
            return Some(i);
        }
        i += 1;
    }
    None
}

/// Coerces field `field` of `map` under `rule`, appending its issue to
/// `issues` (see [`step_ok`]).
fn coerce_key(map: &mut Vec<(YamlValue, YamlValue)>, issues: &mut Vec<FrontMatterIssue>, field: &str, rule: FieldRule)
    ensures
        step_ok(rule, field@, old(map)@, old(issues)@, final(map)@, final(issues)@),
{
    let found = find_key(map, field);
    let i = match found {
        None => return,
        Some(i) => i,
    };
    let a = match rule {
        FieldRule::List => coerce_list_field(field, &map[i].1),
        FieldRule::Text => coerce_string_field(field, &map[i].1),
        FieldRule::Id => coerce_id_field(&map[i].1),
    };
    let ghost m0 = map@;
    let ghost is0 = issues@;
    let ghost a0 = a;
    assert(action_ok(rule, field@, m0[i as int].1, a0));
    match a {
        CoerceAction::Unchanged => {},
        CoerceAction::Replace(v, issue) => {
            let (k, _old) = map.remove(i);
            map.insert(i, (k, v));
            issues.push(issue);
            assert(map@ =~= m0.update(i as int, (m0[i as int].0, v)));
        },
        CoerceAction::Remove(issue) => {
            let _gone = map.swap_remove(i);
            issues.push(issue);
        },
    }
    assert(applied(m0, is0, i as int, a0, map@, issues@));
}

/// Coerces the known fields of a header mapping in place: `tags` and
/// `references` to lists of strings, the text fields to text, an `id` that
/// is no UUID removed; returns the issues, one per changed field, in that
/// order (see [`chain_ok`]).
pub fn coerce_mapping(map: &mut Vec<(YamlValue, YamlValue)>) -> (r: Vec<FrontMatterIssue>)
    ensures
        chain_ok(0, old(map)@, Seq::empty(), final(map)@, r@),
{
    let mut issues: Vec<FrontMatterIssue> = Vec::new();
    let ghost m0 = map@;
    let ghost i0 = issues@;
    coerce_key(map, &mut issues, "tags", FieldRule::List);
    let ghost m1 = map@;
    let ghost i1 = issues@;
    coerce_key(map, &mut issues, "references", FieldRule::List);
    let ghost m2 = map@;
    let ghost i2 = issues@;
    coerce_key(map, &mut issues, "title", FieldRule::Text);
    let ghost m3 = map@;
    let ghost i3 = issues@;
    coerce_key(map, &mut issues, "summary", FieldRule::Text);
    let ghost m4 = map@;
    let ghost i4 = issues@;
    coerce_key(map, &mut issues, "date", FieldRule::Text);
    let ghost m5 = map@;
    let ghost i5 = issues@;
    coerce_key(map, &mut issues, "date_added", FieldRule::Text);
    let ghost m6 = map@;
    let ghost i6 = issues@;
    coerce_key(map, &mut issues, "author", FieldRule::Text);
    let ghost m7 = map@;
    let ghost i7 = issues@;
    coerce_key(map, &mut issues, "url", FieldRule::Text);
    let ghost m8 = map@;
    let ghost i8 = issues@;
    coerce_key(map, &mut issues, "source", FieldRule::Text);
    let ghost m9 = map@;
    let ghost i9 = issues@;
    coerce_key(map, &mut issues, "id", FieldRule::Id);
    let ghost m10 = map@;
    let ghost i10 = issues@;
    proof {
        assert(chain_ok(10, m10, i10, m10, i10));
        assert(step_ok(coerced_field(9).1, coerced_field(9).0, m9, i9, m10, i10));
        assert(chain_ok(9, m9, i9, m10, i10));
        assert(step_ok(coerced_field(8).1, coerced_field(8).0, m8, i8, m9, i9));
        assert(chain_ok(8, m8, i8, m10, i10));
        assert(step_ok(coerced_field(7).1, coerced_field(7).0, m7, i7, m8, i8));
        assert(chain_ok(7, m7, i7, m10, i10));
        assert(step_ok(coerced_field(6).1, coerced_field(6).0, m6, i6, m7, i7));
        assert(chain_ok(6, m6, i6, m10, i10));
        assert(step_ok(coerced_field(5).1, coerced_field(5).0, m5, i5, m6, i6));
        assert(chain_ok(5, m5, i5, m10, i10));
        assert(step_ok(coerced_field(4).1, coerced_field(4).0, m4, i4, m5, i5));
        assert(chain_ok(4, m4, i4, m10, i10));
        assert(step_ok(coerced_field(3).1, coerced_field(3).0, m3, i3, m4, i4));
        assert(chain_ok(3, m3, i3, m10, i10));
        assert(step_ok(coerced_field(2).1, coerced_field(2).0, m2, i2, m3, i3));
        assert(chain_ok(2, m2, i2, m10, i10));
        assert(step_ok(coerced_field(1).1, coerced_field(1).0, m1, i1, m2, i2));
        assert(chain_ok(1, m1, i1, m10, i10));
        assert(step_ok(coerced_field(0).1, coerced_field(0).0, m0, i0, m1, i1));
        assert(chain_ok(0, m0, i0, m10, i10));
    }
    issues
}

/// The issue of a header that is not a mapping.
pub open spec fn not_mapping_issue(issue: FrontMatterIssue, v: YamlValue) -> bool {
    &&& issue.kind == WikiFrontMatterIssueKind::InvalidYaml
    &&& issue.field is None
    &&& issue.message@ == "Front matter must be a YAML mapping, not "@ + kind_name(v)
        + ". Jade can replace it with a fresh header and keep the article body."@
    &&& issue.line is None && issue.column is None
    &&& issue.repairable
    &&& issue.repair_label matches Some(l) && l@ == "Replace with a fresh header"@
}

/// Coerces a parsed header in place: a mapping has its known fields
/// coerced (see [`coerce_mapping`]); anything else stays and is reported
/// as one repairable issue.
pub fn coerce_front_matter_value(value: &mut YamlValue) -> (r: Vec<FrontMatterIssue>)
    ensures
        match *old(value) {
            YamlValue::Mapping(m) => *final(value) matches YamlValue::Mapping(m2) && chain_ok(0, m@, Seq::empty(), m2@, r@),
            other => *final(value) == other && r@.len() == 1 && not_mapping_issue(r@[0], other),
        },
{
    let mut taken = YamlValue::Null;
    std::mem::swap(&mut taken, value);
    match taken {
        YamlValue::Mapping(mut m) => {
            let issues = coerce_mapping(&mut m);
            *value = YamlValue::Mapping(m);
            issues
        },
        other => {
            let mut message: Vec<char> = Vec::new();
            append_str(&mut message, "Front matter must be a YAML mapping, not ");
            append_str(&mut message, yaml_kind_name(&other));
            append_str(&mut message, ". Jade can replace it with a fresh header and keep the article body.");
            let issue = FrontMatterIssue {
                kind: WikiFrontMatterIssueKind::InvalidYaml,
                field: None,
                message: from_chars(&message),
                line: None,
                column: None,
                repairable: true,
                repair_label: Some(from_chars(&to_chars("Replace with a fresh header"))),
            };
            *value = other;
            let mut issues: Vec<FrontMatterIssue> = Vec::new();
            issues.push(issue);
            issues
        },
    }
}

/// A position the YAML codec reports (line from 0, column) as an issue
/// shows it: the line counted from 1.
pub open spec fn issue_line(location: Option<(usize, usize)>) -> Option<usize> {
    match location {
        Some((l, _)) => Some(if l == usize::MAX { l } else { (l + 1) as usize }),
        None => None,
    }
}

/// The column of a reported position.
pub open spec fn issue_column(location: Option<(usize, usize)>) -> Option<usize> {
    match location {
        Some((_, c)) => Some(c),
        None => None,
    }
}

/// A repairable whole-header issue of `kind` with `message`, at `location`.
pub open spec fn header_issue_is(
    issue: FrontMatterIssue,
    kind: WikiFrontMatterIssueKind,
    message: Seq<char>,
    location: Option<(usize, usize)>,
) -> bool {
    &&& issue.kind == kind
    &&& issue.field is None
    &&& issue.message@ == message
    &&& issue.line == issue_line(location)
    &&& issue.column == issue_column(location)
    &&& issue.repairable
    &&& issue.repair_label matches Some(l) && l@ == "Replace with a fresh header"@
}

fn header_issue(kind: WikiFrontMatterIssueKind, message: Vec<char>, location: Option<(usize, usize)>) -> (r: FrontMatterIssue)
    ensures
        header_issue_is(r, kind, message@, location),
{
    let (line, column) = match location {
        Some((l, c)) => (Some(l.saturating_add(1)), Some(c)),
        None => (None, None),
    };
    FrontMatterIssue {
        kind,
        field: None,
        message: from_chars(&message),
        line,
        column,
        repairable: true,
        repair_label: Some(from_chars(&to_chars("Replace with a fresh header"))),
    }
}

/// The issue of a header the YAML codec refused, with its error text and
/// the position it reported.
pub fn yaml_syntax_issue(error: &str, location: Option<(usize, usize)>) -> (r: FrontMatterIssue)
    ensures
        header_issue_is(r, WikiFrontMatterIssueKind::InvalidYaml, "The YAML header isn't valid YAML ("@ + error@
            + "). Jade can replace it with a fresh header and keep the article body."@, location),
{
    let mut m: Vec<char> = Vec::new();
    append_str(&mut m, "The YAML header isn't valid YAML (");
    append_str(&mut m, error);
    append_str(&mut m, "). Jade can replace it with a fresh header and keep the article body.");
    header_issue(WikiFrontMatterIssueKind::InvalidYaml, m, location)
}

/// The issue of a coerced header that still does not read as the header's
/// fields, with the decoder's error text and the position it reported.
pub fn header_decode_issue(error: &str, location: Option<(usize, usize)>) -> (r: FrontMatterIssue)
    ensures
        header_issue_is(r, WikiFrontMatterIssueKind::UnsupportedType, "Jade couldn't use this YAML header: "@ + error@
            + ". A fresh header can be written; the article body is kept."@, location),
{
    let mut m: Vec<char> = Vec::new();
    append_str(&mut m, "Jade couldn't use this YAML header: ");
    append_str(&mut m, error);
    append_str(&mut m, ". A fresh header can be written; the article body is kept.");
    header_issue(WikiFrontMatterIssueKind::UnsupportedType, m, location)
}

/// `s` with each `\r\n` turned into `\n` (left to right, without overlap).
pub open spec fn crlf_to_lf(s: Seq<char>) -> Seq<char>
    decreases s.len(),
{
    if s.len() < 2 {
        s
    } else if s[0] == '\r' && s[1] == '\n' {
        crlf_to_lf(s.drop_first())
    } else {
        seq![s[0]] + crlf_to_lf(s.drop_first())
    }
}

/// `raw` with `\r\n` line ends turned into `\n`.
pub fn normalize_newlines(raw: &str) -> (r: Vec<char>)
    ensures
        r@ == crlf_to_lf(raw@),
{
    let v = to_chars(raw);
    let mut out: Vec<char> = Vec::new();
    let mut i: usize = 0;
    assert(v@.subrange(0, v@.len() as int) == v@);
    assert(out@ + crlf_to_lf(v@) == crlf_to_lf(v@));
    while i < v.len()
        invariant
            i <= v@.len(),
            v@ == raw@,
            out@ + crlf_to_lf(v@.subrange(i as int, v@.len() as int)) == crlf_to_lf(v@),
        decreases v@.len() - i,
    {
        let ghost rest = v@.subrange(i as int, v@.len() as int);
        assert(rest.drop_first() == v@.subrange(i + 1, v@.len() as int));
        if v.len() - i >= 2 && v[i] == '\r' && v[i + 1] == '\n' {
            assert(rest[0] == '\r' && rest[1] == '\n');
        } else {
            proof {
                if rest.len() >= 2 {
                    assert(rest[0] == v@[i as int]);
                    assert(rest[1] == v@[i + 1]);
                } else {
                    assert(rest.len() == 1);
                    assert(crlf_to_lf(rest) == rest);
                    assert(rest == seq![v@[i as int]]);
                    assert(crlf_to_lf(rest.drop_first()) == Seq::<char>::empty());
                }
            }
            let ghost before = out@;
            out.push(v[i]);
            assert(out@ == before + seq![v@[i as int]]);
        }
        i += 1;
    }
    assert(v@.subrange(v@.len() as int, v@.len() as int) == Seq::<char>::empty());
    out
}

/// The first position at or after `i` where `p` occurs in `s`.
pub open spec fn first_at_from(s: Seq<char>, p: Seq<char>, i: int) -> Option<int>
    decreases s.len() + 1 - i,
{
    if i < 0 || i > s.len() {
        None
    } else if occurs_at(s, p, i) {
        Some(i)
    } else {
        first_at_from(s, p, i + 1)
    }
}

fn first_at_exec(s: &Vec<char>, p: &Vec<char>) -> (r: Option<usize>)
    ensures
        match r {
            Some(k) => first_at_from(s@, p@, 0) == Some(k as int),
            None => first_at_from(s@, p@, 0) is None,
        },
{
    let mut i: usize = 0;
    while i <= s.len()
        invariant
            i <= s@.len() + 1,
            first_at_from(s@, p@, 0) == first_at_from(s@, p@, i as int),
        decreases s@.len() + 1 - i,
    {
        if occurs_at_exec(s, p, i) {
            return Some(i);
        }
        if i == s.len() {
            assert(first_at_from(s@, p@, i as int + 1) is None);
            return None;
        }
        i += 1;
    }
    None
}

/// The header and body of a markdown document: CRLF line ends become LF;
/// after leading byte-order marks, a document that opens with `---` and has
/// a later line starting with `---` has the text between as its header
/// (one newline after the opening fence dropped) and what follows the
/// closing fence as its body (one newline dropped); any other document is
/// all body.
pub open spec fn split_view(raw: Seq<char>) -> (Option<Seq<char>>, Seq<char>) {
    let n = crlf_to_lf(raw);
    let t = trim_start_char(n, '\u{feff}');
    if !starts_with(t, "---"@) {
        (None, n)
    } else {
        let a0 = t.subrange(3, t.len() as int);
        let a = if a0.len() > 0 && a0[0] == '\n' { a0.drop_first() } else { a0 };
        match first_at_from(a, "\n---"@, 0) {
            None => (None, n),
            Some(c) => {
                let rest = a.subrange(c + 4, a.len() as int);
                let body = if rest.len() > 0 && rest[0] == '\n' { rest.drop_first() } else { rest };
                (Some(a.subrange(0, c)), body)
            },
        }
    }
}

/// A markdown document split into its YAML header, if any, and its body.
#[derive(Clone, Debug)]
pub struct SplitMarkdown {
    pub yaml: Option<String>,
    pub body: String,
}

/// Splits a document into its header and body (see [`split_view`]).
pub fn split_front_matter(raw: &str) -> (r: SplitMarkdown)
    ensures
        (match r.yaml {
            Some(y) => Some(y@),
            None => None,
        }, r.body@) == split_view(raw@),
{
    proof {
        reveal_strlit("---");
        reveal_strlit("\n---");
    }
    let n = normalize_newlines(raw);
    let mut k: usize = 0;
    while k < n.len() && n[k] == '\u{feff}'
        invariant
            k <= n@.len(),
            forall|j: int| 0 <= j < k ==> #[trigger] n@[j] == '\u{feff}',
        decreases n@.len() - k,
    {
        k += 1;
    }
    proof {
        crate::text::lemma_trim_start_char_at(n@, '\u{feff}', k as int);
    }
    let ghost t = n@.subrange(k as int, n@.len() as int);
    if !(n.len() - k >= 3 && n[k] == '-' && n[k + 1] == '-' && n[k + 2] == '-') {
        proof {
            if starts_with(t, "---"@) {
                let f = t.subrange(0, 3);
                assert(f == "---"@);
                assert(f[0] == '-' && f[1] == '-' && f[2] == '-');
                assert(t[0] == f[0] && t[1] == f[1] && t[2] == f[2]);
                assert(t[0] == n@[k as int] && t[1] == n@[k + 1] && t[2] == n@[k + 2]);
            }
        }
        return SplitMarkdown { yaml: None, body: from_chars(&n) };
    }
    proof {
        assert(t.subrange(0, 3) =~= "---"@);
    }
    let mut start = k + 3;
    if start < n.len() && n[start] == '\n' {
        start += 1;
    }
    let a = crate::text::slice_to_vec(&n, start, n.len());
    proof {
        let a0 = t.subrange(3, t.len() as int);
        assert(a0 == n@.subrange(k + 3, n@.len() as int));
        if a0.len() > 0 && a0[0] == '\n' {
            assert(a0.drop_first() == n@.subrange(k + 4, n@.len() as int));
        }
    }
    let mut fence: Vec<char> = Vec::new();
    append_str(&mut fence, "\n---");
    match first_at_exec(&a, &fence) {
        None => SplitMarkdown { yaml: None, body: from_chars(&n) },
        Some(c) => {
            proof {
                lemma_first_at_from_range(a@, fence@, 0);
            }
            let yaml = crate::text::slice_to_vec(&a, 0, c);
            let mut b = c + 4;
            if b < a.len() && a[b] == '\n' {
                b += 1;
            }
            let body = crate::text::slice_to_vec(&a, b, a.len());
            proof {
                let rest = a@.subrange(c + 4, a@.len() as int);
                if rest.len() > 0 && rest[0] == '\n' {
                    assert(rest.drop_first() == a@.subrange(c + 5, a@.len() as int));
                }
            }
            SplitMarkdown { yaml: Some(from_chars(&yaml)), body: from_chars(&body) }
        },
    }
}

proof fn lemma_first_at_from_range(s: Seq<char>, p: Seq<char>, i: int)
    ensures
        first_at_from(s, p, i) matches Some(k) ==> i <= k && occurs_at(s, p, k),
    decreases s.len() + 1 - i,
{
    if 0 <= i <= s.len() && !occurs_at(s, p, i) {
        lemma_first_at_from_range(s, p, i + 1);
    }
}

/// The title an ATX heading line gives: a trimmed line starting `# `, with
/// the rest trimmed, when that is not empty.
pub open spec fn heading_of(line: Seq<char>) -> Option<Seq<char>> {
    let t = trim(line);
    if t.len() >= 2 && t[0] == '#' && t[1] == ' ' && trim(t.subrange(2, t.len() as int)).len() > 0 {
        Some(trim(t.subrange(2, t.len() as int)))
    } else {
        None
    }
}

/// The first heading title among `lines`.
pub open spec fn first_heading_in(lines: Seq<Seq<char>>) -> Option<Seq<char>>
    decreases lines.len(),
{
    if lines.len() == 0 {
        None
    } else {
        match first_heading_in(lines.drop_last()) {
            Some(h) => Some(h),
            None => heading_of(lines.last()),
        }
    }
}

/// The title of the first `# ` heading of a markdown body, if any.
pub fn first_heading(body: &str) -> (r: Option<String>)
    ensures
        match r {
            Some(h) => first_heading_in(crate::install::split_at_char(body@, '\n')) == Some(h@),
            None => first_heading_in(crate::install::split_at_char(body@, '\n')) is None,
        },
{
    let v = to_chars(body);
    let lines = crate::install::split_char(&v, '\n');
    let ghost ls = crate::install::split_at_char(body@, '\n');
    let mut i: usize = 0;
    while i < lines.len()
        invariant
            i <= lines@.len(),
            lines@.len() == ls.len(),
            ls == crate::install::split_at_char(body@, '\n'),
            forall|k: int| 0 <= k < lines@.len() ==> #[trigger] lines@[k]@ == ls[k],
            first_heading_in(ls.subrange(0, i as int)) is None,
        decreases lines@.len() - i,
    {
        let ghost pre = ls.subrange(0, i + 1);
        assert(pre.drop_last() == ls.subrange(0, i as int));
        let t = crate::text::trim_chars(&lines[i]);
        if t.len() >= 2 && t[0] == '#' && t[1] == ' ' {
            let rest = crate::text::slice_to_vec(&t, 2, t.len());
            let title = crate::text::trim_chars(&rest);
            if title.len() > 0 {
                proof {
                    assert(pre.last() == lines@[i as int]@);
                    assert(heading_of(pre.last()) == Some(title@));
                    assert(first_heading_in(pre) == Some(title@));
                    lemma_first_heading_prefix(ls, i + 1);
                    assert(first_heading_in(ls) == Some(title@));
                }
                let h = from_chars(&title);
                assert(h@ == title@);
                return Some(h);
            }
        }
        i += 1;
    }
    assert(ls.subrange(0, ls.len() as int) == ls);
    None
}

/// A heading found in a prefix of the lines is the first heading of all.
proof fn lemma_first_heading_prefix(ls: Seq<Seq<char>>, i: int)
    requires
        0 <= i <= ls.len(),
        first_heading_in(ls.subrange(0, i)) is Some,
    ensures
        first_heading_in(ls) == first_heading_in(ls.subrange(0, i)),
    decreases ls.len() - i,
{
    if i < ls.len() {
        let p = ls.subrange(0, i + 1);
        assert(p.drop_last() == ls.subrange(0, i));
        lemma_first_heading_prefix(ls, i + 1);
    } else {
        assert(ls.subrange(0, i) == ls);
    }
}

/// The date a page was added: `date_added` when set, else `date`; trimmed,
/// and none when blank.
pub open spec fn date_added_of(date_added: Option<Seq<char>>, date: Option<Seq<char>>) -> Option<Seq<char>> {
    let chosen = match date_added {
        Some(d) => Some(d),
        None => date,
    };
    match chosen {
        Some(d) => if trim(d).len() > 0 { Some(trim(d)) } else { None },
        None => None,
    }
}

/// The best date for "recently added" sorting: `date_added`, then `date`.
pub fn resolve_date_added(fm: Option<&FrontMatter>) -> (r: Option<String>)
    ensures
        crate::cron::opt_view(r) == match fm {
            Some(f) => date_added_of(crate::cron::opt_view(f.date_added), crate::cron::opt_view(f.date)),
            None => None,
        },
{
    let f = match fm {
        Some(f) => f,
        None => {
            return None;
        },
    };
    let chosen = match &f.date_added {
        Some(d) => Some(d),
        None => match &f.date {
            Some(d) => Some(d),
            None => None,
        },
    };
    match chosen {
        Some(d) => {
            let t = trim_str(d.as_str());
            if t.as_str().unicode_len() > 0 {
                Some(t)
            } else {
                None
            }
        },
        None => None,
    }
}

/// A page's title: the front matter title (trimmed) when not blank, else
/// its first heading, else the file stem.
pub open spec fn title_of(fm_title: Option<Seq<char>>, body: Seq<char>, stem: Seq<char>) -> Seq<char> {
    match fm_title {
        Some(t) if trim(t).len() > 0 => trim(t),
        _ => match first_heading_in(crate::install::split_at_char(body, '\n')) {
            Some(h) => h,
            None => stem,
        },
    }
}

/// A page's title (see [`title_of`]).
pub fn resolve_title(fm: Option<&FrontMatter>, body: &str, file_stem: &str) -> (r: String)
    ensures
        r@ == title_of(match fm {
            Some(f) => crate::cron::opt_view(f.title),
            None => None,
        }, body@, file_stem@),
{
    if let Some(f) = fm {
        if let Some(t) = &f.title {
            let tt = trim_str(t.as_str());
            if tt.as_str().unicode_len() > 0 {
                return tt;
            }
        }
    }
    match first_heading(body) {
        Some(h) => h,
        None => from_chars(&to_chars(file_stem)),
    }
}

/// Gives a header an id when it has none (a fresh random one), and the
/// hint as title (trimmed) when it has no title or a blank one and the hint
/// is not blank.
pub fn ensure_identity(fm: &mut FrontMatter, title_hint: Option<&str>)
    ensures
        old(fm).id matches Some(i) ==> final(fm).id == Some(i),
        final(fm).id is Some,
        crate::cron::opt_view(final(fm).title) == (match old(fm).title {
            Some(t) if trim(t@).len() > 0 => Some(t@),
            _ => match title_hint {
                Some(h) if trim(h@).len() > 0 => Some(trim(h@)),
                _ => crate::cron::opt_view(old(fm).title),
            },
        }),
        final(fm).tags@ == old(fm).tags@,
        final(fm).references@ == old(fm).references@,
{
    if fm.id.is_none() {
        fm.id = Some(crate::ids::new_id());
    }
    let blank = match &fm.title {
        Some(t) => trim_str(t.as_str()).as_str().unicode_len() == 0,
        None => true,
    };
    if blank {
        if let Some(h) = title_hint {
            let t = trim_str(h);
            if t.as_str().unicode_len() > 0 {
                fm.title = Some(t);
            }
        }
    }
}


/// A markdown document read: its header as far as it could be used, its
/// body, and the problems found in the header.
#[derive(Debug)]
pub struct ParsedMarkdown {
    pub front_matter: Option<FrontMatter>,
    pub body: String,
    pub had_front_matter: bool,
    pub issues: Vec<FrontMatterIssue>,
}

/// A header with no fields set.
pub fn empty_front_matter() -> (r: FrontMatter)
    ensures
        r.id is None && r.title is None && r.tags@.len() == 0 && r.summary is None && r.date is None
            && r.date_added is None && r.author is None && r.url is None && r.source is None
            && r.references@.len() == 0 && r.extra@.len() == 0,
{
    FrontMatter {
        id: None,
        title: None,
        tags: Vec::new(),
        summary: None,
        date: None,
        date_added: None,
        author: None,
        url: None,
        source: None,
        references: Vec::new(),
        extra: Vec::new(),
    }
}

/// How to repair a document's header.
#[derive(Debug)]
pub enum RepairPlan {
    /// No issue: the document as it is, with LF line ends.
    Keep(String),
    /// Write this header (with an id, and a title when one can be found)
    /// above the body.
    Rewrite { front_matter: FrontMatter, body: String },
}

/// Error text when no issue of a header can be repaired.
pub open spec fn cannot_repair() -> Seq<char> {
    "front matter cannot be repaired automatically"@
}

/// Some issue can be repaired.
pub open spec fn any_repairable(issues: Seq<FrontMatterIssue>) -> bool {
    exists|k: int| 0 <= k < issues.len() && #[trigger] issues[k].repairable
}

/// The repair of a document `raw` read as `parsed`: a document without
/// issues is kept (LF line ends); one whose issues are none repairable is
/// refused; else the usable header (an empty one when none was usable) is
/// rewritten with an id and, when it has no title, the first heading as
/// title, above the body.
pub open spec fn repair_of(parsed: ParsedMarkdown, raw: Seq<char>, r: Result<RepairPlan, Error>) -> bool {
    &&& parsed.issues@.len() == 0 ==> (r matches Ok(RepairPlan::Keep(t)) && t@ == crlf_to_lf(raw))
    &&& parsed.issues@.len() > 0 && !any_repairable(parsed.issues@) ==> (r matches Err(e)
        && e matches Error::Message(m) && m@ == cannot_repair())
    &&& parsed.issues@.len() > 0 && any_repairable(parsed.issues@) ==> (r matches Ok(RepairPlan::Rewrite { front_matter, body })
        && body@ == parsed.body@ && front_matter.id is Some
        && (parsed.front_matter matches Some(f) ==> (f.id matches Some(i) ==> front_matter.id == Some(i))
            && front_matter.tags@ == f.tags@ && front_matter.references@ == f.references@)
        && crate::cron::opt_view(front_matter.title) == (match parsed.front_matter {
            Some(f) => match f.title {
                Some(t) if trim(t@).len() > 0 => Some(t@),
                _ => match first_heading_in(crate::install::split_at_char(parsed.body@, '\n')) {
                    Some(h) => Some(h),
                    None => crate::cron::opt_view(f.title),
                },
            },
            None => first_heading_in(crate::install::split_at_char(parsed.body@, '\n')),
        }))
}

/// The text a repair plan writes: a kept document as it is, a rewritten
/// header rendered above the body (see [`crate::wiki::parse::rendered`]),
/// and a refusal as the same error.
pub open spec fn repair_text(plan: Result<RepairPlan, Error>, r: Result<String, Error>) -> bool {
    match plan {
        Ok(RepairPlan::Keep(t)) => r matches Ok(x) && x@ == t@,
        Ok(RepairPlan::Rewrite { front_matter, body }) => crate::wiki::parse::rendered(front_matter, body@, r),
        Err(e) => r == Err::<String, Error>(e),
    }
}

/// Repairs the header of a document: reads it (see
/// [`crate::wiki::parse::parse_markdown`]), plans as [`repair_of`] says and
/// writes the plan out (see [`repair_text`]).
pub fn repair_markdown_front_matter(raw: &str) -> (r: Result<String, Error>)
    ensures
        exists|parsed: ParsedMarkdown, plan: Result<RepairPlan, Error>| #[trigger] crate::wiki::parse::markdown_read(
            raw@, parsed) && repair_of(parsed, raw@, plan) && #[trigger] repair_text(plan, r),
{
    let parsed = crate::wiki::parse::parse_markdown(raw);
    let ghost p = parsed;
    let plan = repair_parsed(parsed, raw);
    let ghost pl = plan;
    let r = match plan {
        Ok(RepairPlan::Keep(t)) => Ok(t),
        Ok(RepairPlan::Rewrite { front_matter, body }) => crate::wiki::parse::render_markdown(front_matter, body.as_str()),
        Err(e) => Err(e),
    };
    proof {
        assert(crate::wiki::parse::markdown_read(raw@, p));
        assert(repair_text(pl, r));
    }
    r
}

/// How to repair the header of `raw`, read as `parsed` (see [`repair_of`]).
pub fn repair_parsed(parsed: ParsedMarkdown, raw: &str) -> (r: Result<RepairPlan, Error>)
    ensures
        repair_of(parsed, raw@, r),
{
    if parsed.issues.len() == 0 {
        return Ok(RepairPlan::Keep(from_chars(&normalize_newlines(raw))));
    }
    let mut any = false;
    let mut k: usize = 0;
    while k < parsed.issues.len()
        invariant
            k <= parsed.issues@.len(),
            any == (exists|j: int| 0 <= j < k && #[trigger] parsed.issues@[j].repairable),
        decreases parsed.issues@.len() - k,
    {
        if parsed.issues[k].repairable {
            any = true;
        }
        k += 1;
    }
    if !any {
        return Err(Error::Message(from_chars(&to_chars("front matter cannot be repaired automatically"))));
    }
    let hint = first_heading(parsed.body.as_str());
    let mut fm = match parsed.front_matter {
        Some(f) => f,
        None => empty_front_matter(),
    };
    match &hint {
        Some(h) => {
            proof {
                lemma_heading_trimmed(crate::install::split_at_char(parsed.body@, '\n'));
            }
            ensure_identity(&mut fm, Some(h.as_str()));
        },
        None => {
            ensure_identity(&mut fm, None);
        },
    }
    Ok(RepairPlan::Rewrite { front_matter: fm, body: parsed.body })
}

/// A document as written from header text `yaml` and `body`: the opening
/// fence, the header without trailing whitespace, the closing fence, then
/// the body without its leading line breaks.
pub open spec fn framed(yaml: Seq<char>, body: Seq<char>) -> Seq<char> {
    "---\n"@ + crate::text::trim_end(yaml) + "\n---\n"@ + crate::text::trim_start_char(body, '\n')
}

/// Writes a document from its serialized header and its body (see
/// [`framed`]).
pub fn frame_markdown(yaml: &str, body: &str) -> (r: String)
    ensures
        r@ == framed(yaml@, body@),
{
    let y = to_chars(yaml);
    let mut hi: usize = y.len();
    assert(y@.take(hi as int) =~= y@);
    while hi > 0 && crate::text::char_is_ws(y[hi - 1])
        invariant
            hi <= y@.len(),
            crate::text::trim_end(y@) == crate::text::trim_end(y@.take(hi as int)),
        decreases hi,
    {
        assert(y@.take(hi as int).drop_last() =~= y@.take(hi - 1));
        hi -= 1;
    }
    assert(crate::text::trim_end(y@.take(hi as int)) == y@.take(hi as int));
    let b = to_chars(body);
    let mut lo: usize = 0;
    assert(b@.skip(0) =~= b@);
    while lo < b.len() && b[lo] == '\n'
        invariant
            lo <= b@.len(),
            crate::text::trim_start_char(b@, '\n') == crate::text::trim_start_char(b@.skip(lo as int), '\n'),
        decreases b@.len() - lo,
    {
        assert(b@.skip(lo as int).drop_first() =~= b@.skip(lo + 1));
        lo += 1;
    }
    assert(crate::text::trim_start_char(b@.skip(lo as int), '\n') == b@.skip(lo as int));
    let mut out: Vec<char> = Vec::new();
    append_str(&mut out, "---\n");
    crate::text::push_range(&mut out, &y, 0, hi);
    append_str(&mut out, "\n---\n");
    crate::text::push_range(&mut out, &b, lo, b.len());
    proof {
        assert(y@.subrange(0, hi as int) =~= y@.take(hi as int));
        assert(b@.subrange(lo as int, b@.len() as int) =~= b@.skip(lo as int));
        assert(out@ =~= framed(yaml@, body@));
    }
    from_chars(&out)
}

/// A heading title is trimmed and not blank.
proof fn lemma_heading_trimmed(lines: Seq<Seq<char>>)
    ensures
        first_heading_in(lines) matches Some(h) ==> trim(h).len() > 0 && trim(h) == h,
    decreases lines.len(),
{
    if lines.len() > 0 {
        lemma_heading_trimmed(lines.drop_last());
        let t = trim(lines.last());
        if t.len() >= 2 {
            crate::text::lemma_trim_idempotent(t.subrange(2, t.len() as int));
        }
    }
}

} // verus!
