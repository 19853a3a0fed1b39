//! Text templates (rendered with Tera) and commit messages.

use vstd::prelude::*;
use crate::assets::{Asset, asset_json};
use crate::config::{Config, config_json};
use crate::error::Error;
use crate::json::{
    Json, JsonValue, entries_plain, items_plain, json_plain, json_text, json_to_text, jv,
    lemma_jv_entries_ext, lemma_jv_list_ext, reads_back,
};
use crate::text::{owned, str_eq};

verus! {

/// One rendering pass of `template` answered `a`.
pub open spec fn pass_answer<F: Fn(&str) -> Result<String, Error>>(
    render: F,
    template: Seq<char>,
    a: Result<Seq<char>, Error>,
) -> bool {
    exists|t: &str, o: Result<String, Error>|
        t@ == template && #[trigger] render.ensures((t,), o) && match (o, a) {
            (Ok(x), Ok(y)) => x@ == y,
            (Err(x), Err(y)) => x == y,
            _ => false,
        }
}

/// The texts of repeated rendering: each after the first is what a pass
/// made of the one before.
pub open spec fn is_render_trace<F: Fn(&str) -> Result<String, Error>>(
    render: F,
    trace: Seq<Seq<char>>,
) -> bool {
    &&& trace.len() >= 1
    &&& forall|j: int| 0 <= j < trace.len() - 1 ==> #[trigger] pass_answer(render, trace[j], Ok(trace[j + 1]))
}

/// Rendering went on past step `j` of the trace: its text was new (not
/// empty at the first step, not the previous text later).
pub open spec fn went_on(trace: Seq<Seq<char>>, j: int) -> bool {
    if j == 0 {
        trace[0] != Seq::<char>::empty()
    } else {
        trace[j] != trace[j - 1]
    }
}

/// The most rendering passes made.
pub open spec fn max_passes() -> int {
    10
}

/// What rendering `source` repeatedly gives: the text is rendered again
/// while it changes (an empty source is not rendered), at most ten times;
/// the first error of a pass is the result.
pub open spec fn render_outcome<F: Fn(&str) -> Result<String, Error>>(
    render: F,
    source: Seq<char>,
    r: Result<String, Error>,
) -> bool {
    exists|trace: Seq<Seq<char>>|
        {
            &&& #[trigger] is_render_trace(render, trace)
            &&& trace[0] == source
            &&& trace.len() - 1 <= max_passes()
            &&& forall|j: int| 0 <= j < trace.len() - 1 ==> #[trigger] went_on(trace, j)
            &&& match r {
                Ok(out) => out@ == trace.last() && (trace.len() - 1 == max_passes() || !went_on(
                    trace,
                    trace.len() - 1,
                )),
                Err(e) => trace.len() - 1 < max_passes() && went_on(trace, trace.len() - 1)
                    && pass_answer(render, trace.last(), Err(e)),
            }
        }
}

/// An empty source is not rendered: it comes back as it is.
proof fn lemma_empty_source_outcome<F: Fn(&str) -> Result<String, Error>>(
    render: F,
    source: Seq<char>,
    r: Result<String, Error>,
)
    requires
        source.len() == 0,
        render_outcome(render, source, r),
    ensures
        r matches Ok(s) && s@.len() == 0,
{
    let trace = choose|trace: Seq<Seq<char>>|
        {
            &&& #[trigger] is_render_trace(render, trace)
            &&& trace[0] == source
            &&& trace.len() - 1 <= max_passes()
            &&& forall|j: int| 0 <= j < trace.len() - 1 ==> #[trigger] went_on(trace, j)
            &&& match r {
                Ok(out) => out@ == trace.last() && (trace.len() - 1 == max_passes() || !went_on(
                    trace,
                    trace.len() - 1,
                )),
                Err(e) => trace.len() - 1 < max_passes() && went_on(trace, trace.len() - 1)
                    && pass_answer(render, trace.last(), Err(e)),
            }
        };
    assert(source =~= Seq::<char>::empty());
    assert(!went_on(trace, 0));
    if trace.len() > 1 {
        assert(went_on(trace, 0));
    }
}

/// A template text without any `{`: it holds no Tera tag, expression or
/// comment, only text.
pub open spec fn is_plain_text(t: Seq<char>) -> bool {
    !t.contains('{')
}

/// When every pass gives plain text back unchanged, rendering plain text
/// gives it back (or fails).
proof fn lemma_plain_source_outcome<F: Fn(&str) -> Result<String, Error>>(
    render: F,
    source: Seq<char>,
    r: Result<String, Error>,
    ok: bool,
)
    requires
        is_plain_text(source),
        render_outcome(render, source, r),
        forall|t: &str, o: Result<String, Error>|
            #[trigger] render.ensures((t,), o) ==> (is_plain_text(t@) ==> (o matches Ok(x) ==> x@
                == t@)),
        forall|t: &str, o: Result<String, Error>|
            #[trigger] render.ensures((t,), o) ==> (ok && is_plain_text(t@) ==> o is Ok),
    ensures
        r matches Ok(x) ==> x@ == source,
        ok ==> r is Ok,
{
    let trace = choose|trace: Seq<Seq<char>>|
        {
            &&& #[trigger] is_render_trace(render, trace)
            &&& trace[0] == source
            &&& trace.len() - 1 <= max_passes()
            &&& forall|j: int| 0 <= j < trace.len() - 1 ==> #[trigger] went_on(trace, j)
            &&& match r {
                Ok(out) => out@ == trace.last() && (trace.len() - 1 == max_passes() || !went_on(
                    trace,
                    trace.len() - 1,
                )),
                Err(e) => trace.len() - 1 < max_passes() && went_on(trace, trace.len() - 1)
                    && pass_answer(render, trace.last(), Err(e)),
            }
        };
    if trace.len() > 1 {
        let z: int = 0;
        assert(pass_answer(render, trace[z], Ok(trace[z + 1])));
        assert(trace[z + 1] == trace[1]);
        let (t, o) = choose|t: &str, o: Result<String, Error>|
            t@ == trace[0] && #[trigger] render.ensures((t,), o) && match (o, Ok::<Seq<char>, Error>(trace[1])) {
                (Ok(x), Ok(y)) => x@ == y,
                (Err(x), Err(y)) => x == y,
                _ => false,
            };
        assert(trace[1] == trace[0]);
        if trace.len() > 2 {
            assert(went_on(trace, 1));
        }
        assert(trace.last() == source);
    }
    assert(trace.last() == source);
    if ok && r is Err {
        let e = r->Err_0;
        assert(pass_answer(render, trace.last(), Err(e)));
        let (t, o) = choose|t: &str, o: Result<String, Error>|
            t@ == trace.last() && #[trigger] render.ensures((t,), o) && match (o, Err::<Seq<char>, Error>(e)) {
                (Ok(x), Ok(y)) => x@ == y,
                (Err(x), Err(y)) => x == y,
                _ => false,
            };
        assert(o is Ok);
    }
}

/// The answer a pass gave, as a value.
pub open spec fn answer_view(o: Result<String, Error>) -> Result<Seq<char>, Error> {
    match o {
        Ok(x) => Ok(x@),
        Err(e) => Err(e),
    }
}

/// A computed answer `o` is the answer `a`.
pub open spec fn same_answer(o: Result<String, Error>, a: Result<Seq<char>, Error>) -> bool {
    match (o, a) {
        (Ok(x), Ok(y)) => x@ == y,
        (Err(x), Err(y)) => x == y,
        _ => false,
    }
}

/// What rendering `source` repeatedly gives, where `step(t, a)` says that
/// one pass over the text `t` may answer `a`: as `render_outcome`, at most
/// ten passes, each over the text the one before gave, stopping when a
/// pass gives its text back; the first error of a pass is the result.
pub open spec fn render_outcome_by(
    step: spec_fn(Seq<char>, Result<Seq<char>, Error>) -> bool,
    source: Seq<char>,
    r: Result<String, Error>,
) -> bool {
    exists|trace: Seq<Seq<char>>|
        {
            &&& trace.len() >= 1
            &&& forall|j: int| 0 <= j < trace.len() - 1 ==> #[trigger] step(trace[j], Ok(trace[j + 1]))
            &&& trace[0] == source
            &&& trace.len() - 1 <= max_passes()
            &&& forall|j: int| 0 <= j < trace.len() - 1 ==> #[trigger] went_on(trace, j)
            &&& match r {
                Ok(out) => out@ == trace.last() && (trace.len() - 1 == max_passes() || !went_on(
                    trace,
                    trace.len() - 1,
                )),
                Err(e) => trace.len() - 1 < max_passes() && went_on(trace, trace.len() - 1)
                    && step(trace.last(), Err(e)),
            }
        }
}

/// An outcome of rendering with a function whose every answer `step`
/// allows is an outcome by `step`.
proof fn lemma_outcome_by<F: Fn(&str) -> Result<String, Error>>(
    render: F,
    step: spec_fn(Seq<char>, Result<Seq<char>, Error>) -> bool,
    source: Seq<char>,
    r: Result<String, Error>,
)
    requires
        render_outcome(render, source, r),
        forall|t: Seq<char>, a: Result<Seq<char>, Error>| #[trigger] pass_answer(render, t, a) ==> step(t, a),
    ensures
        render_outcome_by(step, source, r),
{
    let trace = choose|trace: Seq<Seq<char>>|
        {
            &&& #[trigger] is_render_trace(render, trace)
            &&& trace[0] == source
            &&& trace.len() - 1 <= max_passes()
            &&& forall|j: int| 0 <= j < trace.len() - 1 ==> #[trigger] went_on(trace, j)
            &&& match r {
                Ok(out) => out@ == trace.last() && (trace.len() - 1 == max_passes() || !went_on(
                    trace,
                    trace.len() - 1,
                )),
                Err(e) => trace.len() - 1 < max_passes() && went_on(trace, trace.len() - 1)
                    && pass_answer(render, trace.last(), Err(e)),
            }
        };
    assert forall|j: int| 0 <= j < trace.len() - 1 implies #[trigger] step(trace[j], Ok(trace[j + 1])) by {
        assert(pass_answer(render, trace[j], Ok(trace[j + 1])));
    }
    match r {
        Err(e) => {
            assert(step(trace.last(), Err(e)));
        },
        _ => {},
    }
}

/// A Tera rendering of `template` against the context text `context` may
/// answer `a`: some run of the renderer on them gave that answer.
pub closed spec fn tera_answers(context: Seq<char>, template: Seq<char>, a: Result<Seq<char>, Error>) -> bool {
    exists|t: &str, c: &str, o: Result<String, Error>|
        t@ == template && c@ == context && #[trigger] call_ensures(tera_render, (t, c), o)
            && same_answer(o, a)
}

/// Tera gives a plain text back unchanged, when it renders it.
pub proof fn lemma_tera_plain(context: Seq<char>, template: Seq<char>, a: Result<Seq<char>, Error>)
    requires
        is_plain_text(template),
        tera_answers(context, template, a),
    ensures
        a matches Ok(x) ==> x == template,
        (exists|j: Json| #[trigger] json_text(j) == context && j is Object && reads_back(j)) ==> a is Ok,
{
    let (t, c, o) = choose|t: &str, c: &str, o: Result<String, Error>|
        t@ == template && c@ == context && #[trigger] call_ensures(tera_render, (t, c), o)
            && same_answer(o, a);
}

/// Runs a two-argument renderer, recording that this answer is one it gives.
fn run_pass<F: Fn(&str, &str) -> Result<String, Error>>(f: F, t: &str, c: &str) -> (o: Result<String, Error>)
    requires
        f.requires((t, c)),
    ensures
        call_ensures(f, (t, c), o),
{
    f(t, c)
}

/// A template, rendered until it no longer changes.
#[derive(Debug)]
pub struct TemplateString(pub String);

impl TemplateString {
    /// Renders the template repeatedly with `render` (see `render_outcome`).
    pub fn render_with<F: Fn(&str) -> Result<String, Error>>(&self, render: F) -> (r: Result<
        String,
        Error,
    >)
        requires
            forall|t: &str| #[trigger] render.requires((t,)),
        ensures
            render_outcome(render, self.0@, r),
    {
        let mut template = String::new();
        let mut output = self.0.clone();
        let mut i: usize = 0;
        let ghost mut trace: Seq<Seq<char>> = seq![self.0@];
        while i < 10
            invariant
                forall|t: &str| #[trigger] render.requires((t,)),
                i <= 10,
                trace.len() == i + 1,
                is_render_trace(render, trace),
                trace[0] == self.0@,
                trace.last() == output@,
                i == 0 ==> template@ == Seq::<char>::empty(),
                i > 0 ==> template@ == trace[i - 1],
                forall|j: int| 0 <= j < i ==> #[trigger] went_on(trace, j),
            decreases 10 - i,
        {
            if str_eq(output.as_str(), template.as_str()) {
                assert(!went_on(trace, i as int));
                return Ok(output);
            }
            assert(went_on(trace, i as int));
            let ghost gone = trace;
            assert(forall|j: int| 0 <= j <= i ==> #[trigger] went_on(gone, j));
            template = output.clone();
            let next = render(template.as_str());
            match next {
                Ok(o) => {
                    proof {
                        assert(pass_answer(render, trace.last(), Ok(o@)));
                        let t2 = trace.push(o@);
                        assert forall|j: int| 0 <= j < t2.len() - 1 implies #[trigger] pass_answer(
                            render,
                            t2[j],
                            Ok(t2[j + 1]),
                        ) by {
                            if j < trace.len() - 1 {
                                assert(t2[j] == trace[j] && t2[j + 1] == trace[j + 1]);
                            }
                        }
                        assert forall|j: int| 0 <= j < i + 1 implies #[trigger] went_on(t2, j) by {
                            assert(went_on(trace, j));
                            if j > 0 {
                                assert(t2[j] == trace[j] && t2[j - 1] == trace[j - 1]);
                            } else {
                                assert(t2[0] == trace[0]);
                            }
                        }
                        trace = t2;
                    }
                    output = o;
                },
                Err(e) => {
                    proof {
                        assert(pass_answer(render, trace.last(), Err(e)));
                    }
                    return Err(e);
                },
            }
            i += 1;
        }
        Ok(output)
    }

    /// Renders the template with Tera against the configuration and the
    /// asset, as `config` and `asset` (see `render_with`).
    pub fn render(&self, config: &Config, asset: &Asset) -> (r: Result<String, Error>)
        ensures
            render_outcome_by(
                |t: Seq<char>, a: Result<Seq<char>, Error>|
                    tera_answers(json_text(context_json(*config, asset@)), t, a),
                self.0@,
                r,
            ),
            self.0@.len() == 0 ==> (r matches Ok(s) && s@.len() == 0),
            is_plain_text(self.0@) ==> (r matches Ok(s) ==> s@ == self.0@),
            is_plain_text(self.0@) && reads_back(context_json(*config, asset@)) ==> (r matches Ok(s)
                && s@ == self.0@),
    {
        let context = json_to_text(&build_context(config, asset));
        let ghost ctx = context@;
        let ghost safe = exists|j: Json|
            #[trigger] json_text(j) == context@ && j is Object && reads_back(j);
        proof {
            if reads_back(context_json(*config, asset@)) {
                let j = context_json(*config, asset@);
                assert(json_text(j) == context@ && j is Object && reads_back(j));
            }
        }
        let pass = |t: &str| -> (o: Result<String, Error>)
            ensures
                tera_answers(context@, t@, answer_view(o)),
                is_plain_text(t@) ==> (o matches Ok(x) ==> x@ == t@),
                safe && is_plain_text(t@) ==> o is Ok,
            {
                let o = run_pass(tera_render, t, context.as_str());
                proof {
                    assert(same_answer(o, answer_view(o)));
                    assert(tera_answers(context@, t@, answer_view(o)));
                    if is_plain_text(t@) {
                        lemma_tera_plain(context@, t@, answer_view(o));
                    }
                }
                o
            };
        let r = self.render_with(pass);
        proof {
            let step = |t: Seq<char>, a: Result<Seq<char>, Error>| tera_answers(ctx, t, a);
            assert forall|t: Seq<char>, a: Result<Seq<char>, Error>| #[trigger] pass_answer(pass, t, a)
                implies step(t, a) by {
                let (t1, o) = choose|t1: &str, o: Result<String, Error>|
                    t1@ == t && #[trigger] pass.ensures((t1,), o) && match (o, a) {
                        (Ok(x), Ok(y)) => x@ == y,
                        (Err(x), Err(y)) => x == y,
                        _ => false,
                    };
                assert(answer_view(o) == a);
            }
            lemma_outcome_by(pass, step, self.0@, r);
            if self.0@.len() == 0 {
                lemma_empty_source_outcome(pass, self.0@, r);
            }
            if is_plain_text(self.0@) {
                lemma_plain_source_outcome(pass, self.0@, r, safe);
            }
        }
        r
    }
}

/// The JSON context templates are rendered against.
pub open spec fn context_json(config: Config, asset: crate::assets::AssetView) -> Json {
    Json::Object(seq![("asset"@, asset_json(asset)), ("config"@, config_json(config))])
}

/// The context templates are rendered against: the asset and the
/// configuration.
pub fn build_context(config: &Config, asset: &Asset) -> (r: JsonValue)
    ensures
        jv(r) == context_json(*config, asset@),
{
    let o: Vec<(String, JsonValue)> = vec![
        (owned("asset"), asset.to_json()),
        (owned("config"), config.to_json_value()),
    ];
    proof {
        lemma_jv_entries_ext(o@, seq![("asset"@, asset_json(asset@)), ("config"@, config_json(*config))]);
    }
    JsonValue::Object(o)
}

/// Renders a template with Tera against a context given as JSON text.
/// Trusted: `tera::Tera::render_str` on a fresh `Tera`, after
/// `tera::Context::from_value` on the parsed context. Tera's grammar reads
/// a text without `{` as plain text (every tag, expression and comment
/// opens with `{`), and its renderer writes plain text out as it is; so
/// when such a template renders, it renders to itself. `serde_json` reads
/// the compact text of an object without numbers and with fewer than 128
/// levels of nesting (strings escaped as its own writer escapes them), and
/// `Context::from_value` takes any object, so such a context lets a plain
/// template render. Nothing more is promised: a template may read the
/// environment (Tera's `get_env`), so the result is no function of the
/// arguments alone.
#[verifier::external_body]
fn tera_render(template: &str, context: &str) -> (r: Result<String, Error>)
    ensures
        is_plain_text(template@) ==> (r matches Ok(s) ==> s@ == template@),
        is_plain_text(template@) && (exists|j: Json|
            #[trigger] json_text(j) == context@ && j is Object && reads_back(j)) ==> r is Ok,
{
    let value: serde_json::Value = serde_json::from_str(context).map_err(|e| Error::SerdeJson {
        message: e.to_string(),
    })?;
    let ctx = tera::Context::from_value(value).map_err(|e| Error::Template { message: e.to_string() })?;
    tera::Tera::default().render_str(template, &ctx).map_err(|e| Error::Template {
        message: e.to_string(),
    })
}

/// A commit message: a template and the parts it is filled with.
#[derive(Debug)]
pub struct CommitMessage {
    pub template: TemplateString,
    pub subject: Option<String>,
    pub body: Option<String>,
    pub trailers: Vec<String>,
}

impl CommitMessage {
    /// A message with the given template and no parts yet.
    pub fn new(template: TemplateString) -> (r: CommitMessage)
        ensures
            r.template.0@ == template.0@,
            r.subject is None,
            r.body is None,
            r.trailers@.len() == 0,
    {
        CommitMessage { template, subject: None, body: None, trailers: Vec::new() }
    }

    /// Renders the message once with Tera, its parts given as `msg`; a
    /// template without tags comes back as it is.
    pub fn render(&self) -> (r: Result<String, Error>)
        ensures
            is_plain_text(self.template.0@) ==> (r matches Ok(s) && s@ == self.template.0@),
    {
        let context = json_to_text(&self.context());
        proof {
            lemma_message_reads_back(*self);
            let j = Json::Object(seq![("msg"@, message_json(*self))]);
            assert(json_text(j) == context@ && j is Object && reads_back(j));
        }
        tera_render(self.template.0.as_str(), context.as_str())
    }

    /// The context the message is rendered against: its parts under `msg`.
    pub fn context(&self) -> (r: JsonValue)
        ensures
            jv(r) == Json::Object(seq![("msg"@, message_json(*self))]),
    {
        let subject = match &self.subject {
            Some(s) => JsonValue::String(s.clone()),
            None => JsonValue::Null,
        };
        let body = match &self.body {
            Some(s) => JsonValue::String(s.clone()),
            None => JsonValue::Null,
        };
        let mut trailers: Vec<JsonValue> = Vec::new();
        let n = self.trailers.len();
        let mut i: usize = 0;
        while i < n
            invariant
                n == self.trailers@.len(),
                i <= n,
                trailers@.len() == i,
                forall|j: int| 0 <= j < i ==> jv(#[trigger] trailers@[j]) == Json::Str(self.trailers@[j]@),
            decreases n - i,
        {
            trailers.push(JsonValue::String(self.trailers[i].clone()));
            i += 1;
        }
        proof {
            lemma_jv_list_ext(trailers@, self.trailers@.map_values(|t: String| Json::Str(t@)));
        }
        let m: Vec<(String, JsonValue)> = vec![
            (owned("body"), body),
            (owned("subject"), subject),
            (owned("template"), JsonValue::String(self.template.0.clone())),
            (owned("trailers"), JsonValue::Array(trailers)),
        ];
        proof {
            match message_json(*self) {
                Json::Object(w) => lemma_jv_entries_ext(m@, w),
                _ => {},
            }
        }
        let o: Vec<(String, JsonValue)> = vec![(owned("msg"), JsonValue::Object(m))];
        proof {
            lemma_jv_entries_ext(o@, seq![("msg"@, message_json(*self))]);
        }
        JsonValue::Object(o)
    }
}

/// Strings only, in a list.
proof fn lemma_strings_plain(a: Seq<Json>, d: nat)
    requires
        forall|i: int| 0 <= i < a.len() ==> (#[trigger] a[i]) is Str,
    ensures
        items_plain(a, d),
    decreases a.len(),
{
    if a.len() > 0 {
        assert forall|i: int| 0 <= i < a.drop_last().len() implies (#[trigger] a.drop_last()[i]) is Str by {
            assert(a.drop_last()[i] == a[i]);
        }
        lemma_strings_plain(a.drop_last(), d);
        assert(a.last() is Str);
        assert(json_plain(a.last(), d));
    }
}

/// The context of a commit message has no numbers and is shallow, so it
/// reads back.
proof fn lemma_message_reads_back(m: CommitMessage)
    ensures
        reads_back(Json::Object(seq![("msg"@, message_json(m))])),
{
    let tr = m.trailers@.map_values(|t: String| Json::Str(t@));
    lemma_strings_plain(tr, 124);
    let w = match message_json(m) {
        Json::Object(w) => w,
        _ => seq![],
    };
    assert(w.len() == 4);
    assert(json_plain(w[0].1, 125));
    assert(json_plain(w[1].1, 125));
    assert(json_plain(w[2].1, 125));
    assert(w[3].1 == Json::Array(tr));
    assert(json_plain(w[3].1, 125));
    assert(entries_plain(w.take(0), 125));
    assert(w.take(1).drop_last() =~= w.take(0));
    assert(w.take(2).drop_last() =~= w.take(1));
    assert(w.take(3).drop_last() =~= w.take(2));
    assert(w.take(4).drop_last() =~= w.take(3));
    assert(entries_plain(w.take(1), 125));
    assert(entries_plain(w.take(2), 125));
    assert(entries_plain(w.take(3), 125));
    assert(entries_plain(w.take(4), 125));
    assert(w.take(4) =~= w);
    assert(json_plain(message_json(m), 126));
    let top = seq![("msg"@, message_json(m))];
    assert(top.drop_last().len() == 0);
    assert(entries_plain(top.drop_last(), 126));
    assert(entries_plain(top, 126));
}

/// The JSON of a commit message's parts, keys in sorted order.
pub open spec fn message_json(m: CommitMessage) -> Json {
    Json::Object(
        seq![
            ("body"@, match m.body {
                Some(b) => Json::Str(b@),
                None => Json::Null,
            }),
            ("subject"@, match m.subject {
                Some(s) => Json::Str(s@),
                None => Json::Null,
            }),
            ("template"@, Json::Str(m.template.0@)),
            ("trailers"@, Json::Array(m.trailers@.map_values(|t: String| Json::Str(t@)))),
        ],
    )
}

} // verus!
