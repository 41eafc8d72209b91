//! Reading a markdown document: its YAML header read by the YAML codec,
//! coerced by the header rules and decoded into the fields Jade uses.

use vstd::prelude::*;
use sha2::Digest;
use crate::text::{trim, trim_str, to_chars, from_chars, append_str, str_eq};
use crate::models::Error;
use crate::wiki::frontmatter::{
    YamlValue, FrontMatter, FrontMatterIssue, ParsedMarkdown, WikiFrontMatterIssueKind, split_view,
    split_front_matter, coerce_front_matter_value, yaml_syntax_issue, header_decode_issue, empty_front_matter,
    uuid_parse, parse_uuid, chain_ok, not_mapping_issue, header_issue_is,
};

verus! {

#[verifier::external_type_specification]
#[verifier::external_body]
pub struct ExYamlDocument(serde_yaml::Value);

/// What the YAML codec (`serde_yaml::from_str` into its YAML value) makes
/// of a text: the value read, or its error text and the position it
/// reports (line from 0, column).
pub uninterp spec fn yaml_read_of(text: Seq<char>) -> Result<YamlValue, (Seq<char>, Option<(usize, usize)>)>;

/// The outcome of a read, its error text by its view.
pub open spec fn yaml_outcome(r: Result<YamlValue, (String, Option<(usize, usize)>)>) -> Result<
    YamlValue,
    (Seq<char>, Option<(usize, usize)>),
> {
    match r {
        Ok(v) => Ok(v),
        Err((m, at)) => Err((m@, at)),
    }
}

/// Reads YAML text (`serde_yaml::from_str::<serde_yaml::Value>`, converted
/// node for node), or gives the codec's error text and position; named by
/// [`yaml_read_of`].
#[verifier::external_body]
fn yaml_read(text: &str) -> (r: Result<YamlValue, (String, Option<(usize, usize)>)>)
    ensures
        yaml_outcome(r) == yaml_read_of(text@),
{
    match serde_yaml::from_str::<serde_yaml::Value>(text) {
        Ok(v) => Ok(yaml_node(&v)),
        Err(e) => Err((e.to_string(), e.location().map(|l| (l.line(), l.column())))),
    }
}

/// A value of the YAML codec as a [`YamlValue`], node for node (a number by
/// its text, a tagged value by its kind only); the conversion of
/// [`yaml_read`].
#[verifier::external_body]
fn yaml_node(v: &serde_yaml::Value) -> YamlValue {
    match v {
        serde_yaml::Value::Null => YamlValue::Null,
        serde_yaml::Value::Bool(b) => YamlValue::Bool(*b),
        serde_yaml::Value::Number(n) => YamlValue::Number(n.to_string()),
        serde_yaml::Value::String(s) => YamlValue::Str(s.clone()),
        serde_yaml::Value::Sequence(items) => YamlValue::Sequence(items.iter().map(yaml_node).collect()),
        serde_yaml::Value::Mapping(m) => YamlValue::Mapping(m.iter().map(|(k, x)| (yaml_node(k), yaml_node(x))).collect()),
        serde_yaml::Value::Tagged(_) => YamlValue::Tagged,
    }
}

/// The header keys Jade reads, and any other.
#[derive(Clone, Copy, Debug, PartialEq, Eq, Structural)]
pub enum HeaderKey {
    Id,
    Title,
    Tags,
    Summary,
    Date,
    DateAdded,
    Author,
    Url,
    Source,
    References,
    Other,
}

/// Which header key a text key is.
pub open spec fn header_key_of(k: Seq<char>) -> HeaderKey {
    if k == "id"@ {
        HeaderKey::Id
    } else if k == "title"@ {
        HeaderKey::Title
    } else if k == "tags"@ {
        HeaderKey::Tags
    } else if k == "summary"@ {
        HeaderKey::Summary
    } else if k == "date"@ {
        HeaderKey::Date
    } else if k == "date_added"@ {
        HeaderKey::DateAdded
    } else if k == "author"@ {
        HeaderKey::Author
    } else if k == "url"@ {
        HeaderKey::Url
    } else if k == "source"@ {
        HeaderKey::Source
    } else if k == "references"@ {
        HeaderKey::References
    } else {
        HeaderKey::Other
    }
}

/// Which header key a text key is (see [`header_key_of`]).
pub fn header_key(k: &str) -> (r: HeaderKey)
    ensures
        r == header_key_of(k@),
{
    if str_eq(k, "id") {
        HeaderKey::Id
    } else if str_eq(k, "title") {
        HeaderKey::Title
    } else if str_eq(k, "tags") {
        HeaderKey::Tags
    } else if str_eq(k, "summary") {
        HeaderKey::Summary
    } else if str_eq(k, "date") {
        HeaderKey::Date
    } else if str_eq(k, "date_added") {
        HeaderKey::DateAdded
    } else if str_eq(k, "author") {
        HeaderKey::Author
    } else if str_eq(k, "url") {
        HeaderKey::Url
    } else if str_eq(k, "source") {
        HeaderKey::Source
    } else if str_eq(k, "references") {
        HeaderKey::References
    } else {
        HeaderKey::Other
    }
}

/// The value of the last entry under text key `key`.
pub open spec fn last_under(entries: Seq<(YamlValue, YamlValue)>, key: HeaderKey) -> Option<YamlValue>
    decreases entries.len(),
{
    if entries.len() == 0 {
        None
    } else if entries.last().0 matches YamlValue::Str(k) && header_key_of(k@) == key {
        Some(entries.last().1)
    } else {
        last_under(entries.drop_last(), key)
    }
}

/// A text field: a string value, else nothing.
pub open spec fn text_field(v: Option<YamlValue>) -> Option<Seq<char>> {
    match v {
        Some(YamlValue::Str(s)) => Some(s@),
        _ => None,
    }
}

/// The strings of a list, in order, other items left out.
pub open spec fn str_items(items: Seq<YamlValue>) -> Seq<Seq<char>>
    decreases items.len(),
{
    if items.len() == 0 {
        Seq::empty()
    } else {
        let rest = str_items(items.drop_last());
        match items.last() {
            YamlValue::Str(s) => rest.push(s@),
            _ => rest,
        }
    }
}

/// A list field: the strings of a list value, else none.
pub open spec fn list_field(v: Option<YamlValue>) -> Seq<Seq<char>> {
    match v {
        Some(YamlValue::Sequence(items)) => str_items(items@),
        _ => Seq::empty(),
    }
}

/// An `id` value that reads: null, or a string `uuid` reads as an id.
pub open spec fn id_value_ok(v: YamlValue) -> bool {
    v is Null || (v matches YamlValue::Str(s) && uuid_parse(s@) is Some)
}

/// The id an `id` field gives.
pub open spec fn id_field(v: Option<YamlValue>) -> Option<u128> {
    match v {
        Some(YamlValue::Str(s)) => uuid_parse(s@),
        _ => None,
    }
}

/// Every `id` entry reads.
pub open spec fn ids_read(entries: Seq<(YamlValue, YamlValue)>) -> bool {
    forall|k: int| 0 <= k < entries.len() ==> (#[trigger] entries[k].0 matches YamlValue::Str(key)
        && header_key_of(key@) == HeaderKey::Id) ==> id_value_ok(entries[k].1)
}

/// The views of a list of texts.
pub open spec fn texts_view(v: Seq<String>) -> Seq<Seq<char>> {
    v.map_values(|s: String| s@)
}

/// Header `fm` holds the fields the entries give: each known field from
/// its last entry.
pub open spec fn header_fields(fm: FrontMatter, entries: Seq<(YamlValue, YamlValue)>) -> bool {
    &&& fm.id == id_field(last_under(entries, HeaderKey::Id))
    &&& crate::cron::opt_view(fm.title) == text_field(last_under(entries, HeaderKey::Title))
    &&& texts_view(fm.tags@) == list_field(last_under(entries, HeaderKey::Tags))
    &&& crate::cron::opt_view(fm.summary) == text_field(last_under(entries, HeaderKey::Summary))
    &&& crate::cron::opt_view(fm.date) == text_field(last_under(entries, HeaderKey::Date))
    &&& crate::cron::opt_view(fm.date_added) == text_field(last_under(entries, HeaderKey::DateAdded))
    &&& crate::cron::opt_view(fm.author) == text_field(last_under(entries, HeaderKey::Author))
    &&& crate::cron::opt_view(fm.url) == text_field(last_under(entries, HeaderKey::Url))
    &&& crate::cron::opt_view(fm.source) == text_field(last_under(entries, HeaderKey::Source))
    &&& texts_view(fm.references@) == list_field(last_under(entries, HeaderKey::References))
}

/// The text of a string value.
fn text_of(v: &YamlValue) -> (r: Option<String>)
    ensures
        crate::cron::opt_view(r) == text_field(Some(*v)),
{
    match v {
        YamlValue::Str(s) => Some(s.clone()),
        _ => None,
    }
}

/// The strings of a list value.
fn texts_of(v: &YamlValue) -> (r: Vec<String>)
    ensures
        texts_view(r@) == list_field(Some(*v)),
{
    match v {
        YamlValue::Sequence(items) => {
            let mut r: Vec<String> = Vec::new();
            let mut k: usize = 0;
            while k < items.len()
                invariant
                    k <= items@.len(),
                    texts_view(r@) == str_items(items@.take(k as int)),
                decreases items@.len() - k,
            {
                let ghost before = r@;
                match &items[k] {
                    YamlValue::Str(s) => {
                        r.push(s.clone());
                        assert(texts_view(r@) =~= texts_view(before).push(s@));
                    },
                    _ => {},
                }
                assert(items@.take(k + 1).drop_last() =~= items@.take(k as int));
                k += 1;
            }
            assert(items@.take(items@.len() as int) =~= items@);
            r
        },
        _ => Vec::new(),
    }
}

/// The id an `id` value gives, or the decoder's message for one that is
/// neither null nor a string `uuid` reads.
fn read_id(v: &YamlValue) -> (r: Result<Option<u128>, String>)
    ensures
        r is Ok <==> id_value_ok(*v),
        r matches Ok(i) ==> i == id_field(Some(*v)),
{
    match v {
        YamlValue::Null => Ok(None),
        YamlValue::Str(s) => match parse_uuid(s.as_str()) {
            Some(u) => Ok(Some(u)),
            None => {
                let mut m: Vec<char> = Vec::new();
                append_str(&mut m, "id: invalid UUID ");
                m.push('\u{60}');
                append_str(&mut m, s.as_str());
                m.push('\u{60}');
                Err(from_chars(&m))
            },
        },
        _ => Err(from_chars(&to_chars("id: invalid type"))),
    }
}

/// A header with no field set.
pub open spec fn header_empty(f: FrontMatter) -> bool {
    f.id is None && f.title is None && f.tags@.len() == 0 && f.summary is None && f.date is None
        && f.date_added is None && f.author is None && f.url is None && f.source is None
        && f.references@.len() == 0 && f.extra@.len() == 0
}

/// Reads a coerced header mapping as the header's fields: each known key
/// from its last entry (a string, or the strings of a list), other text
/// keys kept in order. An `id` that is neither null nor a string `uuid`
/// reads fails, with the decoder's message.
pub fn front_matter_of(entries: Vec<(YamlValue, YamlValue)>) -> (r: Result<FrontMatter, String>)
    ensures
        r is Ok <==> ids_read(entries@),
        r matches Ok(fm) ==> header_fields(fm, entries@),
{
    let ghost all = entries@;
    let total: usize = entries.len();
    let mut rest = entries;
    let mut fm = empty_front_matter();
    let mut k: usize = 0;
    proof {
        assert(all.take(0) =~= Seq::<(YamlValue, YamlValue)>::empty());
        assert(texts_view(fm.tags@) =~= Seq::<Seq<char>>::empty());
        assert(texts_view(fm.references@) =~= Seq::<Seq<char>>::empty());
    }
    while rest.len() > 0
        invariant
            k + rest@.len() == all.len(),
            all.len() == total,
            all == entries@,
            rest@ == all.subrange(k as int, all.len() as int),
            header_fields(fm, all.take(k as int)),
            ids_read(all.take(k as int)),
        decreases rest@.len(),
    {
        let ghost cur = all[k as int];
        proof {
            assert(rest@[0] == cur);
            assert(all.take(k + 1).drop_last() =~= all.take(k as int));
            assert(all.take(k + 1).last() == cur);
        }
        let (key, v) = rest.remove(0);
        if let YamlValue::Str(kt) = key {
            match header_key(kt.as_str()) {
                HeaderKey::Id => match read_id(&v) {
                    Ok(i) => {
                        fm.id = i;
                    },
                    Err(m) => {
                        proof {
                            assert(all[k as int] == cur);
                            assert(!id_value_ok(all[k as int].1));
                            assert(!ids_read(all));
                        }
                        return Err(m);
                    },
                },
                HeaderKey::Title => {
                    fm.title = text_of(&v);
                },
                HeaderKey::Tags => {
                    fm.tags = texts_of(&v);
                },
                HeaderKey::Summary => {
                    fm.summary = text_of(&v);
                },
                HeaderKey::Date => {
                    fm.date = text_of(&v);
                },
                HeaderKey::DateAdded => {
                    fm.date_added = text_of(&v);
                },
                HeaderKey::Author => {
                    fm.author = text_of(&v);
                },
                HeaderKey::Url => {
                    fm.url = text_of(&v);
                },
                HeaderKey::Source => {
                    fm.source = text_of(&v);
                },
                HeaderKey::References => {
                    fm.references = texts_of(&v);
                },
                HeaderKey::Other => {
                    fm.extra.push((kt, v));
                },
            }
        }
        proof {
            assert forall|j: int| 0 <= j < k + 1 implies (#[trigger] all.take(k + 1)[j].0 matches YamlValue::Str(key)
                && header_key_of(key@) == HeaderKey::Id) ==> id_value_ok(all.take(k + 1)[j].1) by {
                if j < k {
                    assert(all.take(k + 1)[j] == all.take(k as int)[j]);
                }
            }
            assert(rest@ =~= all.subrange(k + 1, all.len() as int));
        }
        k += 1;
    }
    proof {
        assert(all.take(k as int) =~= all);
    }
    Ok(fm)
}

/// What reading header text `y` gives: a blank header is an empty one;
/// text the YAML codec refuses gives no header and its syntax issue; a
/// value that is not a mapping gives no header and the issue of that; a
/// mapping is coerced (see [`chain_ok`]) and decoded (see
/// [`front_matter_of`]): the header and the coercion issues, or, when an
/// `id` does not read, no header and those issues followed by a repairable
/// issue of a header Jade cannot use.
pub open spec fn header_read(y: Seq<char>, fm: Option<FrontMatter>, issues: Seq<FrontMatterIssue>) -> bool {
    if trim(y).len() == 0 {
        fm matches Some(f) && header_empty(f) && issues.len() == 0
    } else {
        match yaml_read_of(y) {
            Err((m, at)) => fm is None && issues.len() == 1 && header_issue_is(issues[0],
                WikiFrontMatterIssueKind::InvalidYaml, "The YAML header isn't valid YAML ("@ + m
                + "). Jade can replace it with a fresh header and keep the article body."@, at),
            Ok(YamlValue::Mapping(m)) => exists|m2: Seq<(YamlValue, YamlValue)>, n: int|
                0 <= n <= issues.len() && #[trigger] chain_ok(0, m@, Seq::empty(), m2, issues.take(n)) && if ids_read(m2) {
                    &&& n == issues.len()
                    &&& fm matches Some(f) && header_fields(f, m2)
                } else {
                    &&& n == issues.len() - 1
                    &&& fm is None
                    &&& issues.last().kind == WikiFrontMatterIssueKind::UnsupportedType
                    &&& issues.last().field is None && issues.last().line is None && issues.last().column is None
                    &&& issues.last().repairable
                },
            Ok(other) => fm is None && issues.len() == 1 && not_mapping_issue(issues[0], other),
        }
    }
}

/// Document `raw` read as `r`: the body and header of [`split_view`], the
/// header as [`header_read`] says.
pub open spec fn markdown_read(raw: Seq<char>, r: ParsedMarkdown) -> bool {
    &&& r.body@ == split_view(raw).1
    &&& r.had_front_matter == split_view(raw).0 is Some
    &&& split_view(raw).0 is None ==> r.front_matter is None && r.issues@.len() == 0
    &&& split_view(raw).0 matches Some(y) ==> header_read(y, r.front_matter, r.issues@)
}

/// Reads a markdown document: its header (read by the YAML codec, coerced
/// and decoded as [`header_read`] says), its body (see [`split_view`]) and
/// the problems found in the header.
pub fn parse_markdown(raw: &str) -> (r: ParsedMarkdown)
    ensures
        markdown_read(raw@, r),
{
    let split = split_front_matter(raw);
    let body = split.body;
    let yaml = match split.yaml {
        None => {
            return ParsedMarkdown { front_matter: None, body, had_front_matter: false, issues: Vec::new() };
        },
        Some(y) => y,
    };
    if trim_str(yaml.as_str()).as_str().unicode_len() == 0 {
        return ParsedMarkdown { front_matter: Some(empty_front_matter()), body, had_front_matter: true, issues: Vec::new() };
    }
    let (front_matter, issues) = match yaml_read(yaml.as_str()) {
        Err((m, at)) => {
            let mut v: Vec<FrontMatterIssue> = Vec::new();
            v.push(yaml_syntax_issue(m.as_str(), at));
            (None, v)
        },
        Ok(value) => {
            let mut value = value;
            let ghost before = value;
            let mut issues = coerce_front_matter_value(&mut value);
            let ghost coerced = issues@;
            match value {
                YamlValue::Mapping(entries) => {
                    let ghost m2 = entries@;
                    match front_matter_of(entries) {
                        Ok(fm) => {
                            proof {
                                assert(issues@.take(issues@.len() as int) =~= issues@);
                                assert(chain_ok(0, before->Mapping_0@, Seq::empty(), m2, issues@.take(issues@.len() as int)));
                            }
                            (Some(fm), issues)
                        },
                        Err(msg) => {
                            issues.push(header_decode_issue(msg.as_str(), None));
                            proof {
                                assert(issues@.take(coerced.len() as int) =~= coerced);
                                assert(chain_ok(0, before->Mapping_0@, Seq::empty(), m2, issues@.take(coerced.len() as int)));
                            }
                            (None, issues)
                        },
                    }
                },
                _ => (None, issues),
            }
        },
    };
    ParsedMarkdown { front_matter, body, had_front_matter: true, issues }
}

/// What `sha2` makes of bytes: their SHA-256 digest.
pub uninterp spec fn sha256_of(bytes: Seq<u8>) -> Seq<u8>;

/// The SHA-256 digest of `bytes` (`sha2::Sha256::digest`), named by
/// [`sha256_of`]; it is 32 bytes long.
#[verifier::external_body]
fn sha256(bytes: &[u8]) -> (r: Vec<u8>)
    ensures
        r@ == sha256_of(bytes@),
        r@.len() == 32,
{
    sha2::Sha256::digest(bytes).to_vec()
}

/// A hex digit, lower case, of a value below 16.
pub open spec fn hex_digit(n: int) -> char {
    if n < 10 {
        (48 + n) as char
    } else {
        (87 + n) as char
    }
}

/// Bytes as lower-case hex: two digits per byte, high half first.
pub open spec fn hex_lower(b: Seq<u8>) -> Seq<char>
    decreases b.len(),
{
    if b.len() == 0 {
        Seq::empty()
    } else {
        hex_lower(b.drop_last()) + seq![hex_digit(b.last() as int / 16), hex_digit(b.last() as int % 16)]
    }
}

/// `bytes` as lower-case hex (`hex::encode`).
#[verifier::external_body]
fn hex_encode(bytes: &[u8]) -> (r: String)
    ensures
        r@ == hex_lower(bytes@),
{
    hex::encode(bytes)
}

/// What std makes of bytes read as UTF-8, each invalid sequence replaced by
/// U+FFFD.
pub uninterp spec fn utf8_lossy_of(bytes: Seq<u8>) -> Seq<char>;

/// `bytes` as text (`String::from_utf8_lossy`), named by [`utf8_lossy_of`].
#[verifier::external_body]
fn utf8_lossy(bytes: &[u8]) -> (r: String)
    ensures
        r@ == utf8_lossy_of(bytes@),
{
    String::from_utf8_lossy(bytes).into_owned()
}

/// What indexing reads from a scanned file: its content hash, title, tags,
/// link targets, page id and body.
#[derive(Debug)]
pub struct IndexRead {
    pub content_hash: String,
    pub title: String,
    pub tags: Vec<String>,
    pub links: Vec<String>,
    pub page_id: u128,
    pub body: String,
}

/// What indexing reads from file bytes `bytes` with file stem `stem`: the
/// hash is the lower-case hex SHA-256 of the bytes; the bytes read as text
/// and then as a document give the body, the title (see
/// [`crate::wiki::frontmatter::title_of`]), the header's tags, the link
/// targets of the body, sorted and each once, and the header's id, or
/// `fresh` without one.
pub open spec fn index_read_ok(bytes: Seq<u8>, stem: Seq<char>, fresh: u128, r: IndexRead) -> bool {
    &&& r.content_hash@ == hex_lower(sha256_of(bytes))
    &&& exists|p: ParsedMarkdown| #[trigger] markdown_read(utf8_lossy_of(bytes), p) && {
        &&& r.body@ == p.body@
        &&& r.title@ == crate::wiki::frontmatter::title_of(match p.front_matter {
            Some(f) => crate::cron::opt_view(f.title),
            None => None,
        }, p.body@, stem)
        &&& texts_view(r.tags@) == match p.front_matter {
            Some(f) => texts_view(f.tags@),
            None => Seq::empty(),
        }
        &&& r.page_id == match p.front_matter {
            Some(f) => match f.id {
                Some(i) => i,
                None => fresh,
            },
            None => fresh,
        }
        &&& crate::order::strictly_sorted(crate::order::string_views(r.links@))
        &&& forall|t: Seq<char>| #[trigger] crate::order::string_views(r.links@).contains(t)
            <==> crate::wiki::links::link_candidate(p.body@, t)
    }
}

/// Reads a scanned file for indexing (see [`index_read_ok`]).
pub fn index_read(bytes: &[u8], stem: &str, fresh: u128) -> (r: IndexRead)
    ensures
        index_read_ok(bytes@, stem@, fresh, r),
{
    let digest = sha256(bytes);
    let content_hash = hex_encode(digest.as_slice());
    let text = utf8_lossy(bytes);
    let parsed = parse_markdown(text.as_str());
    let ghost p = parsed;
    let title = crate::wiki::frontmatter::resolve_title(parsed.front_matter.as_ref(), parsed.body.as_str(), stem);
    let links = crate::wiki::links::extract_link_targets(parsed.body.as_str());
    let (tags, page_id) = match &parsed.front_matter {
        Some(f) => (copy_texts(&f.tags), match f.id {
            Some(i) => i,
            None => fresh,
        }),
        None => (Vec::new(), fresh),
    };
    let r = IndexRead { content_hash, title, tags, links, page_id, body: parsed.body };
    proof {
        assert(markdown_read(text@, p));
        if p.front_matter is None {
            assert(texts_view(r.tags@) =~= Seq::<Seq<char>>::empty());
        }
    }
    r
}

/// A copy of a list of texts.
fn copy_texts(v: &Vec<String>) -> (r: Vec<String>)
    ensures
        texts_view(r@) == texts_view(v@),
{
    let mut r: Vec<String> = Vec::new();
    let mut k: usize = 0;
    while k < v.len()
        invariant
            k <= v@.len(),
            texts_view(r@) == texts_view(v@.take(k as int)),
        decreases v@.len() - k,
    {
        let ghost before = r@;
        r.push(v[k].clone());
        assert(texts_view(r@) =~= texts_view(before).push(v@[k as int]@));
        assert(texts_view(v@.take(k + 1)) =~= texts_view(v@.take(k as int)).push(v@[k as int]@));
        k += 1;
    }
    assert(v@.take(v@.len() as int) =~= v@);
    r
}

/// The text key of a header key Jade reads.
fn key_text(k: HeaderKey) -> (r: &'static str)
    requires
        k != HeaderKey::Other,
    ensures
        header_key_of(r@) == k,
{
    proof {
        reveal_strlit("id");
        reveal_strlit("title");
        reveal_strlit("tags");
        reveal_strlit("summary");
        reveal_strlit("date");
        reveal_strlit("date_added");
        reveal_strlit("author");
        reveal_strlit("url");
        reveal_strlit("source");
        reveal_strlit("references");
        assert("id"@.len() == 2);
        assert("title"@.len() == 5);
        assert("tags"@.len() == 4);
        assert("summary"@.len() == 7);
        assert("date"@.len() == 4);
        assert("date_added"@.len() == 10);
        assert("author"@.len() == 6);
        assert("url"@.len() == 3);
        assert("source"@.len() == 6);
        assert("references"@.len() == 10);
        assert("tags"@[0] != "date"@[0]);
        assert("author"@[0] != "source"@[0]);
        assert("date_added"@[0] != "references"@[0]);
    }
    match k {
        HeaderKey::Id => "id",
        HeaderKey::Title => "title",
        HeaderKey::Tags => "tags",
        HeaderKey::Summary => "summary",
        HeaderKey::Date => "date",
        HeaderKey::DateAdded => "date_added",
        HeaderKey::Author => "author",
        HeaderKey::Url => "url",
        HeaderKey::Source => "source",
        _ => "references",
    }
}

/// Adds the entry `k: v` to a header mapping.
fn push_field(entries: &mut Vec<(YamlValue, YamlValue)>, k: HeaderKey, v: YamlValue)
    requires
        k != HeaderKey::Other,
    ensures
        forall|key: HeaderKey| #[trigger] last_under(final(entries)@, key) == if key == k {
            Some(v)
        } else {
            last_under(old(entries)@, key)
        },
{
    let name = key_text(k);
    entries.push((YamlValue::Str(from_chars(&to_chars(name))), v));
    proof {
        assert(entries@.drop_last() =~= old(entries)@);
    }
}

/// A text field as a header value.
fn text_field_value(entries: &mut Vec<(YamlValue, YamlValue)>, k: HeaderKey, t: &Option<String>)
    requires
        k != HeaderKey::Other,
    ensures
        forall|key: HeaderKey| #[trigger] last_under(final(entries)@, key) == if key == k && t is Some {
            Some(YamlValue::Str(t->Some_0))
        } else {
            last_under(old(entries)@, key)
        },
        text_field(last_under(final(entries)@, k)) == (if t is Some { crate::cron::opt_view(*t) } else {
            text_field(last_under(old(entries)@, k))
        }),
{
    if let Some(s) = t {
        push_field(entries, k, YamlValue::Str(s.clone()));
    }
}

/// A list field as a header value.
fn list_field_value(entries: &mut Vec<(YamlValue, YamlValue)>, k: HeaderKey, items: &Vec<String>)
    requires
        k != HeaderKey::Other,
    ensures
        forall|key: HeaderKey| key != k ==> #[trigger] last_under(final(entries)@, key) == last_under(old(entries)@, key),
        items@.len() == 0 ==> last_under(final(entries)@, k) == last_under(old(entries)@, k),
        items@.len() > 0 ==> list_field(last_under(final(entries)@, k)) == texts_view(items@),
{
    if items.len() > 0 {
        let mut seq: Vec<YamlValue> = Vec::new();
        let mut j: usize = 0;
        while j < items.len()
            invariant
                j <= items@.len(),
                str_items(seq@) == texts_view(items@.take(j as int)),
            decreases items@.len() - j,
        {
            let ghost before = seq@;
            seq.push(YamlValue::Str(items[j].clone()));
            assert(seq@.drop_last() =~= before);
            assert(texts_view(items@.take(j + 1)) =~= texts_view(items@.take(j as int)).push(items@[j as int]@));
            j += 1;
        }
        assert(items@.take(items@.len() as int) =~= items@);
        push_field(entries, k, YamlValue::Sequence(seq));
    }
}

/// Every extra key of a header is one Jade does not read.
pub open spec fn extras_other(fm: FrontMatter) -> bool {
    forall|k: int| 0 <= k < fm.extra@.len() ==> header_key_of(#[trigger] fm.extra@[k].0@) == HeaderKey::Other
}

/// A header as a YAML mapping, in the order Jade writes it: `id`, `title`,
/// `tags`, `summary`, `date`, `date_added`, `author`, `url`, `source`,
/// `references` (each only when set or not empty), then the extra keys in
/// order. Read back (see [`header_fields`]) it gives the same fields.
pub fn header_value(fm: FrontMatter) -> (r: YamlValue)
    ensures
        r is Mapping,
        r matches YamlValue::Mapping(e) && (extras_other(fm) ==> header_fields(fm, e@)),
{
    let mut e: Vec<(YamlValue, YamlValue)> = Vec::new();
    if let Some(id) = fm.id {
        push_field(&mut e, HeaderKey::Id, YamlValue::Str(crate::ids::id_string(id)));
    }
    text_field_value(&mut e, HeaderKey::Title, &fm.title);
    list_field_value(&mut e, HeaderKey::Tags, &fm.tags);
    text_field_value(&mut e, HeaderKey::Summary, &fm.summary);
    text_field_value(&mut e, HeaderKey::Date, &fm.date);
    text_field_value(&mut e, HeaderKey::DateAdded, &fm.date_added);
    text_field_value(&mut e, HeaderKey::Author, &fm.author);
    text_field_value(&mut e, HeaderKey::Url, &fm.url);
    text_field_value(&mut e, HeaderKey::Source, &fm.source);
    list_field_value(&mut e, HeaderKey::References, &fm.references);
    proof {
        if fm.tags@.len() == 0 {
            assert(texts_view(fm.tags@) =~= Seq::<Seq<char>>::empty());
        }
        if fm.references@.len() == 0 {
            assert(texts_view(fm.references@) =~= Seq::<Seq<char>>::empty());
        }
    }
    let ghost known = e@;
    let ghost all = fm.extra@;
    let ghost whole = fm;
    let total: usize = fm.extra.len();
    let mut extra = fm.extra;
    let mut j: usize = 0;
    while extra.len() > 0
        invariant
            j + extra@.len() == all.len(),
            all.len() == total,
            extra@ == all.subrange(j as int, all.len() as int),
            all == whole.extra@,
            extras_other(whole) ==> forall|key: HeaderKey| key != HeaderKey::Other
                ==> #[trigger] last_under(e@, key) == last_under(known, key),
        decreases extra@.len(),
    {
        let ghost before = e@;
        proof {
            assert(extra@[0] == all[j as int]);
        }
        let (k, v) = extra.remove(0);
        e.push((YamlValue::Str(k), v));
        proof {
            assert(e@.drop_last() =~= before);
            if extras_other(whole) {
                assert(header_key_of(all[j as int].0@) == HeaderKey::Other);
                assert forall|key: HeaderKey| key != HeaderKey::Other implies #[trigger] last_under(e@, key)
                    == last_under(known, key) by {
                    assert(last_under(e@, key) == last_under(before, key));
                }
            }
            assert(extra@ =~= all.subrange(j + 1, all.len() as int));
        }
        j += 1;
    }
    YamlValue::Mapping(e)
}

/// What the YAML codec writes for a value (`serde_yaml::to_string`), or
/// the text of its error.
pub uninterp spec fn yaml_write_of(v: YamlValue) -> Result<Seq<char>, Seq<char>>;

/// A written text or error, by its view.
pub open spec fn text_outcome(r: Result<String, String>) -> Result<Seq<char>, Seq<char>> {
    match r {
        Ok(t) => Ok(t@),
        Err(m) => Err(m@),
    }
}

/// Writes a value as YAML text (converted node for node into the codec's
/// value, then `serde_yaml::to_string`), named by [`yaml_write_of`].
#[verifier::external_body]
fn yaml_write(v: &YamlValue) -> (r: Result<String, String>)
    ensures
        text_outcome(r) == yaml_write_of(*v),
{
    serde_yaml::to_string(&yaml_doc(v)?).map_err(|e| e.to_string())
}

/// A [`YamlValue`] as the codec's value, node for node (a number read back
/// from its text, a tagged value as null); the conversion of
/// [`yaml_write`].
#[verifier::external_body]
fn yaml_doc(v: &YamlValue) -> Result<serde_yaml::Value, String> {
    Ok(match v {
        YamlValue::Null | YamlValue::Tagged => serde_yaml::Value::Null,
        YamlValue::Bool(b) => serde_yaml::Value::Bool(*b),
        YamlValue::Number(n) => serde_yaml::Value::Number(n.parse().map_err(|e: serde_yaml::Error| e.to_string())?),
        YamlValue::Str(s) => serde_yaml::Value::String(s.clone()),
        YamlValue::Sequence(items) => serde_yaml::Value::Sequence(items.iter().map(yaml_doc).collect::<Result<_, _>>()?),
        YamlValue::Mapping(m) => serde_yaml::Value::Mapping(m.iter().map(|(k, x)| Ok((yaml_doc(k)?, yaml_doc(x)?))).collect::<Result<_, String>>()?),
    })
}

/// `r` is what rendering header `fm` above `body` gives: the header as a
/// mapping (see [`header_value`]) written by the YAML codec and framed
/// with the body (see [`crate::wiki::frontmatter::framed`]), or the codec's
/// error.
pub open spec fn rendered(fm: FrontMatter, body: Seq<char>, r: Result<String, Error>) -> bool {
    exists|v: YamlValue| {
        &&& v matches YamlValue::Mapping(e) && (extras_other(fm) ==> header_fields(fm, e@))
        &&& match #[trigger] yaml_write_of(v) {
            Ok(y) => r matches Ok(t) && t@ == crate::wiki::frontmatter::framed(y, body),
            Err(m) => r matches Err(Error::Message(mm)) && mm@ == "failed to serialize front matter: "@ + m,
        }
    }
}

/// Writes a document from its header and body (see [`rendered`]).
pub fn render_markdown(fm: FrontMatter, body: &str) -> (r: Result<String, Error>)
    ensures
        rendered(fm, body@, r),
{
    let v = header_value(fm);
    let out = match yaml_write(&v) {
        Ok(y) => Ok(crate::wiki::frontmatter::frame_markdown(y.as_str(), body)),
        Err(m) => {
            let mut text: Vec<char> = Vec::new();
            append_str(&mut text, "failed to serialize front matter: ");
            append_str(&mut text, m.as_str());
            Err(Error::Message(from_chars(&text)))
        },
    };
    proof {
        assert(yaml_write_of(v) == yaml_write_of(v));
    }
    out
}

} // verus!
