//! The decisions of the ClickHouse HTTP client: the base URL it posts to, the
//! lines of a JSONEachRow body, and how a response becomes rows or an error.
//! Query parameters use ClickHouse's native parameter syntax: {pN:Type} in SQL,
//! param_pN=value in the URL query string.

use vstd::prelude::*;

use crate::config::ClickHouseConfig;
use crate::error::{EngineError, ErrorView};
use crate::query::plan::{lemma_param_views_push, param_views, ParamView};
use crate::semantic::{copy_opt_string, opt_view};
use crate::json::{JsonValue, JsonView};
use crate::pivot::values_view;
use crate::text::{chars_of, contains_part, decimal, decimal_string, has_part, string_of};

verus! {

/// The rows a sub-query returned and how long it took.
#[derive(Debug)]
pub struct QueryResult {
    pub rows: Vec<JsonValue>,
    pub elapsed_ms: u64,
}

/// `s` with every trailing `/` removed.
pub open spec fn strip_slashes(s: Seq<char>) -> Seq<char>
    decreases s.len(),
{
    if s.len() > 0 && s.last() == '/' {
        strip_slashes(s.drop_last())
    } else {
        s
    }
}

/// The URL queries are posted to: the configured URL without its trailing slashes
/// (every one of them, as `str::trim_end_matches('/')` removes them).
fn base_url(url: &str) -> (r: String)
    ensures
        r@ == strip_slashes(url@),
{
    let cs = chars_of(url);
    let mut end: usize = cs.len();
    assert(url@.subrange(0, end as int) =~= url@);
    while end > 0 && cs[end - 1] == '/'
        invariant
            end <= cs.len(),
            cs@ == url@,
            strip_slashes(url@) == strip_slashes(url@.subrange(0, end as int)),
        decreases end,
    {
        assert(url@.subrange(0, end as int).drop_last() =~= url@.subrange(0, end - 1));
        end = end - 1;
    }
    string_of(url.substring_char(0, end))
}

/// What the ClickHouse client is made of: the URL it posts to, the database, the
/// credentials, the per-query timeout and the row limit per sub-query.
#[derive(Debug)]
pub struct ClientSettings {
    pub base_url: String,
    pub database: String,
    pub username: Option<String>,
    pub password: Option<String>,
    pub timeout_secs: u64,
    pub max_preaggregate_rows: u64,
}

/// The model of the client settings.
pub struct SettingsView {
    pub base_url: Seq<char>,
    pub database: Seq<char>,
    pub username: Option<Seq<char>>,
    pub password: Option<Seq<char>>,
    pub timeout_secs: u64,
    pub max_preaggregate_rows: u64,
}

impl View for ClientSettings {
    type V = SettingsView;

    open spec fn view(&self) -> SettingsView {
        SettingsView {
            base_url: self.base_url@,
            database: self.database@,
            username: opt_view(self.username),
            password: opt_view(self.password),
            timeout_secs: self.timeout_secs,
            max_preaggregate_rows: self.max_preaggregate_rows,
        }
    }
}

/// The settings a configuration gives: its URL without trailing slashes, its
/// database and credentials, its timeout and its row limit.
pub open spec fn settings_from(cfg: ClickHouseConfig) -> SettingsView {
    SettingsView {
        base_url: strip_slashes(cfg.url@),
        database: cfg.database@,
        username: opt_view(cfg.username),
        password: opt_view(cfg.password),
        timeout_secs: cfg.query_timeout_secs,
        max_preaggregate_rows: cfg.max_preaggregate_rows,
    }
}

/// The client settings of a configuration; the URL loses its trailing slashes.
pub fn client_settings(cfg: &ClickHouseConfig) -> (r: ClientSettings)
    ensures
        r@ == settings_from(*cfg),
{
    ClientSettings {
        base_url: base_url(cfg.url.as_str()),
        database: string_of(cfg.database.as_str()),
        username: copy_opt_string(&cfg.username),
        password: copy_opt_string(&cfg.password),
        timeout_secs: cfg.query_timeout_secs,
        max_preaggregate_rows: cfg.max_preaggregate_rows,
    }
}

/// The URL query of a request: the database, then the query parameters, then the
/// user and the password where they are set.
pub open spec fn request_query(
    database: Seq<char>,
    params: Seq<ParamView>,
    username: Option<Seq<char>>,
    password: Option<Seq<char>>,
) -> Seq<ParamView> {
    seq![ParamView { name: "database"@, value: database }] + params + match username {
        Some(u) => seq![ParamView { name: "user"@, value: u }],
        None => Seq::empty(),
    } + match password {
        Some(p) => seq![ParamView { name: "password"@, value: p }],
        None => Seq::empty(),
    }
}

/// The URL query a client with settings `s` sends with the query parameters `params`.
pub open spec fn settings_query(s: SettingsView, params: Seq<ParamView>) -> Seq<ParamView> {
    request_query(s.database, params, s.username, s.password)
}

/// A client made from a configuration sends every query to the configuration's
/// URL without trailing slashes, with its database first, then the query's own
/// parameters, then its user and password where they are set; it waits as long as
/// the configured timeout and accepts as many rows per sub-query as configured.
pub proof fn lemma_requests_follow_config(cfg: ClickHouseConfig, params: Seq<ParamView>)
    ensures
        settings_from(cfg).base_url == strip_slashes(cfg.url@),
        settings_query(settings_from(cfg), params) == seq![ParamView { name: "database"@, value: cfg.database@ }]
            + params + match cfg.username {
            Some(u) => seq![ParamView { name: "user"@, value: u@ }],
            None => Seq::empty(),
        } + match cfg.password {
            Some(p) => seq![ParamView { name: "password"@, value: p@ }],
            None => Seq::empty(),
        },
        settings_from(cfg).timeout_secs == cfg.query_timeout_secs,
        settings_from(cfg).max_preaggregate_rows == cfg.max_preaggregate_rows,
{
}

/// The URL query pairs of a request that carries the query parameters `params`.
pub fn request_params(settings: &ClientSettings, params: &Vec<(String, String)>) -> (r: Vec<(String, String)>)
    ensures
        param_views(r@) == settings_query(settings@, param_views(params@)),
{
    let mut r: Vec<(String, String)> = Vec::new();
    r.push((string_of("database"), string_of(settings.database.as_str())));
    let ghost first = param_views(r@);
    let mut i: usize = 0;
    while i < params.len()
        invariant
            i <= params.len(),
            param_views(r@) == first + param_views(params@).take(i as int),
        decreases params.len() - i,
    {
        let ghost before = r@;
        r.push((string_of(params[i].0.as_str()), string_of(params[i].1.as_str())));
        proof {
            lemma_param_views_push(before, r@[r@.len() - 1]);
            assert(param_views(params@).take(i + 1) =~= param_views(params@).take(i as int).push(
                param_views(params@)[i as int],
            ));
        }
        i = i + 1;
    }
    assert(param_views(params@).take(params@.len() as int) =~= param_views(params@));
    let ghost middle = param_views(r@);
    if let Some(u) = &settings.username {
        let ghost before = r@;
        r.push((string_of("user"), string_of(u.as_str())));
        proof {
            lemma_param_views_push(before, r@[r@.len() - 1]);
        }
    }
    let ghost after_user = param_views(r@);
    if let Some(p) = &settings.password {
        let ghost before = r@;
        r.push((string_of("password"), string_of(p.as_str())));
        proof {
            lemma_param_views_push(before, r@[r@.len() - 1]);
        }
    }
    r
}

/// The pieces of `s` between newline characters (one more than there are newlines).
pub open spec fn newline_pieces(s: Seq<char>) -> Seq<Seq<char>>
    decreases s.len(),
{
    if s.len() == 0 {
        seq![Seq::empty()]
    } else {
        let prev = newline_pieces(s.drop_last());
        if s.last() == '\n' {
            prev.push(Seq::empty())
        } else {
            prev.update(prev.len() - 1, prev.last().push(s.last()))
        }
    }
}

/// The lines of `s` as `str::lines` yields them: split at `\n`, each line ended by
/// `\n` loses one `\r` before it, and a final empty line is not a line.
pub open spec fn text_lines(s: Seq<char>) -> Seq<Seq<char>> {
    let pieces = newline_pieces(s);
    let n = if pieces.last().len() == 0 {
        pieces.len() - 1
    } else {
        pieces.len() as int
    };
    Seq::new(
        n as nat,
        |i: int|
            if i < pieces.len() - 1 && pieces[i].len() > 0 && pieces[i].last() == '\r' {
                pieces[i].drop_last()
            } else {
                pieces[i]
            },
    )
}

/// The lines of `s`, split by `str::lines`.
#[verifier::external_body]
fn split_lines(s: &str) -> (r: Vec<String>)
    ensures
        crate::text::views(r@) == text_lines(s@),
{
    s.lines().map(|l| l.to_string()).collect()
}

/// A character with the Unicode `White_Space` property, which `char::is_whitespace`
/// and `str::trim` test.
pub open spec fn is_space(c: char) -> bool {
    ||| c == '\t'
    ||| c == '\n'
    ||| c == '\u{0B}'
    ||| c == '\u{0C}'
    ||| c == '\r'
    ||| c == ' '
    ||| c == '\u{85}'
    ||| c == '\u{A0}'
    ||| c == '\u{1680}'
    ||| ('\u{2000}' as int <= c as int <= '\u{200A}' as int)
    ||| c == '\u{2028}'
    ||| c == '\u{2029}'
    ||| c == '\u{202F}'
    ||| c == '\u{205F}'
    ||| c == '\u{3000}'
}

/// A text made of white space only (its trimmed form is empty).
pub open spec fn is_blank(s: Seq<char>) -> bool {
    forall|i: int| 0 <= i < s.len() ==> is_space(#[trigger] s[i])
}

fn space_char(c: char) -> (r: bool)
    ensures
        r == is_space(c),
{
    c == '\t' || c == '\n' || c == '\u{0B}' || c == '\u{0C}' || c == '\r' || c == ' ' || c
        == '\u{85}' || c == '\u{A0}' || c == '\u{1680}' || ('\u{2000}' <= c && c <= '\u{200A}')
        || c == '\u{2028}' || c == '\u{2029}' || c == '\u{202F}' || c == '\u{205F}' || c
        == '\u{3000}'
}

/// Whether `s` is made of white space only.
pub fn blank(s: &str) -> (r: bool)
    ensures
        r == is_blank(s@),
{
    let cs = chars_of(s);
    let mut i: usize = 0;
    while i < cs.len()
        invariant
            cs@ == s@,
            i <= cs.len(),
            forall|j: int| 0 <= j < i ==> is_space(#[trigger] cs@[j]),
        decreases cs.len() - i,
    {
        if !space_char(cs[i]) {
            return false;
        }
        i = i + 1;
    }
    true
}

/// The non-blank lines of a JSONEachRow body: each is one row.
pub open spec fn row_lines(body: Seq<char>) -> Seq<Seq<char>> {
    text_lines(body).filter(|l: Seq<char>| !is_blank(l))
}

/// The lines of a JSONEachRow body that hold a row (blank lines are skipped).
pub fn response_lines(body: &str) -> (r: Vec<String>)
    ensures
        crate::text::views(r@) == row_lines(body@),
{
    let lines = split_lines(body);
    let ghost ls = crate::text::views(lines@);
    let mut r: Vec<String> = Vec::new();
    let mut i: usize = 0;
    assert(ls.take(0).filter(|l: Seq<char>| !is_blank(l)) =~= Seq::<Seq<char>>::empty());
    while i < lines.len()
        invariant
            ls == crate::text::views(lines@),
            i <= lines.len(),
            crate::text::views(r@) == ls.take(i as int).filter(|l: Seq<char>| !is_blank(l)),
        decreases lines.len() - i,
    {
        assert(ls.take(i + 1).drop_last() =~= ls.take(i as int));
        reveal_with_fuel(Seq::filter, 1);
        if !blank(lines[i].as_str()) {
            let ghost before = r@;
            r.push(lines[i].clone());
            proof {
                crate::text::lemma_views_push(before, lines@[i as int]);
            }
        }
        i = i + 1;
    }
    assert(ls.take(ls.len() as int) =~= ls);
    r
}

/// The body of a failed response mentions a timeout.
pub open spec fn mentions_timeout(body: Seq<char>) -> bool {
    has_part(body, "TIMEOUT"@) || has_part(body, "TIMED_OUT"@)
}

/// What a ClickHouse response becomes: a failed response is a timeout when its
/// body says so and an unavailable ClickHouse otherwise; a successful one is its
/// rows, unless they are more than the per-sub-query limit.
pub open spec fn response_outcome(
    success: bool,
    status: Seq<char>,
    body: Seq<char>,
    row_count: nat,
    max_rows: u64,
) -> Option<ErrorView> {
    if !success {
        if mentions_timeout(body) {
            Some(ErrorView::QueryTimeout)
        } else {
            Some(ErrorView::ClickHouseUnavailable("HTTP "@ + status + ": "@ + body))
        }
    } else if row_count > max_rows {
        Some(
            ErrorView::PreaggregateToLarge(
                "ClickHouse returned "@ + decimal(row_count) + " rows, limit is "@ + decimal(
                    max_rows as nat,
                ),
            ),
        )
    } else {
        None
    }
}

/// The rows of a body: its parsed lines, but for those that parsed to null or
/// did not parse at all (given as null).
pub open spec fn present_rows(parsed: Seq<JsonView>) -> Seq<JsonView> {
    parsed.filter(|v: JsonView| v != JsonView::Null)
}

/// Turns a ClickHouse response into its rows or an error. `status` is the HTTP
/// status as it is printed (`500 Internal Server Error`); `parsed` holds what each
/// row line of the body parsed to, null where it did not parse.
pub fn check_response(
    success: bool,
    status: &str,
    body: &str,
    parsed: Vec<JsonValue>,
    elapsed_ms: u64,
    max_preaggregate_rows: u64,
) -> (r: Result<QueryResult, EngineError>)
    ensures
        match r {
            Ok(q) => response_outcome(
                success,
                status@,
                body@,
                present_rows(values_view(parsed@)).len(),
                max_preaggregate_rows,
            ) is None && values_view(q.rows@) == present_rows(values_view(parsed@)) && q.elapsed_ms
                == elapsed_ms,
            Err(e) => response_outcome(
                success,
                status@,
                body@,
                present_rows(values_view(parsed@)).len(),
                max_preaggregate_rows,
            ) == Some(e@),
        },
{
    if !success {
        // ClickHouse error codes appear in the body
        if contains_part(body, "TIMEOUT") || contains_part(body, "TIMED_OUT") {
            return Err(EngineError::QueryTimeout);
        }
        let mut msg = string_of("HTTP ");
        msg.append(status);
        msg.append(": ");
        msg.append(body);
        return Err(EngineError::ClickHouseUnavailable(msg));
    }
    let ghost vs = values_view(parsed@);
    let mut rows: Vec<JsonValue> = Vec::new();
    let mut i: usize = 0;
    assert(vs.take(0).filter(|v: JsonView| v != JsonView::Null) =~= Seq::<JsonView>::empty());
    while i < parsed.len()
        invariant
            vs == values_view(parsed@),
            i <= parsed.len(),
            values_view(rows@) == vs.take(i as int).filter(|v: JsonView| v != JsonView::Null),
        decreases parsed.len() - i,
    {
        assert(vs.take(i + 1).drop_last() =~= vs.take(i as int));
        reveal_with_fuel(Seq::filter, 1);
        match &parsed[i] {
            JsonValue::Null => {},
            _ => {
                let ghost before = rows@;
                let v = parsed[i].copy();
                rows.push(v);
                assert(values_view(rows@) =~= values_view(before).push(parsed@[i as int]@));
            },
        }
        i = i + 1;
    }
    assert(vs.take(vs.len() as int) =~= vs);
    let row_count = rows.len() as u64;
    // Safety limit: reject oversized pre-aggregates
    if row_count > max_preaggregate_rows {
        let mut msg = string_of("ClickHouse returned ");
        let count = decimal_string(row_count);
        msg.append(count.as_str());
        msg.append(" rows, limit is ");
        let limit = decimal_string(max_preaggregate_rows);
        msg.append(limit.as_str());
        return Err(EngineError::PreaggregateToLarge(msg));
    }
    Ok(QueryResult { rows, elapsed_ms })
}

} // verus!
