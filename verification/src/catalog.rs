//! Model catalogs: the file behind the app's model picker, one per provider.
//!
//! A missing catalog is created on demand: from the copy bundled with this
//! tool, or from the provider's own endpoint when it publishes one (Z.ai).
//! Writing files and downloading happen outside this library, which decides
//! what to do.

use vstd::prelude::*;
use crate::config::Provider;
use crate::text::{chars_of, string_from, push_str, str_eq};
use crate::json::{
    JsonView, object_of, with_item_field, json_view, json_parse, json_pretty_text, array_at, takes_fields, fields_of, parse_json,
    array_len, item_takes_fields, set_item_field, string_json, object_json, array_json, pretty_json,
};

verus! {

/// OpenRouter models checked to run Codex's tool calls, written in the
/// minimal form (OpenAI's own entries carry `tool_mode`, which breaks other
/// providers).
pub const OPENROUTER: &'static str = "{\"models\": [{\"slug\": \"nex-agi/nex-n2.5-pro:free\", \"display_name\": \"Nex N2.5 Pro (free)\", \"description\": \"Vision + computer use\", \"priority\": 1, \"visibility\": \"list\", \"context_window\": 262144, \"max_context_window\": 262144, \"input_modalities\": [\"text\", \"image\"], \"default_reasoning_level\": \"low\", \"supported_reasoning_levels\": [{\"effort\": \"low\", \"description\": \"Light reasoning\"}, {\"effort\": \"medium\", \"description\": \"Balanced reasoning\"}, {\"effort\": \"high\", \"description\": \"Enhanced reasoning\"}], \"default_reasoning_summary\": \"none\", \"base_instructions\": \"\", \"shell_type\": \"shell_command\", \"apply_patch_tool_type\": \"freeform\", \"effective_context_window_percent\": 95, \"experimental_supported_tools\": [], \"support_verbosity\": false, \"supported_in_api\": true, \"supports_parallel_tool_calls\": true, \"supports_reasoning_summaries\": true, \"truncation_policy\": {\"limit\": 10000, \"mode\": \"bytes\"}}]}\n";

/// The catalog bundled for `provider`: OpenRouter has one.
pub fn bundled(provider: &str) -> (r: Option<&'static str>)
    ensures
        provider@ == "openrouter"@ ==> r == Some(OPENROUTER),
        provider@ != "openrouter"@ ==> r is None,
{
    if str_eq(provider, "openrouter") {
        Some(OPENROUTER)
    } else {
        None
    }
}

/// Whether `ensure` would have to download the catalog, which takes a
/// moment: it is missing (`present` says whether the file exists), none is
/// bundled, and the provider publishes one.
pub fn needs_fetch(p: &Provider, present: bool) -> (r: bool)
    ensures
        r == (!present && p.name@ != "openrouter"@ && p.catalog_url is Some),
{
    !present && bundled(p.name.as_str()).is_none() && p.catalog_url.is_some()
}

/// What `ensure` did.
pub enum Outcome {
    Present,
    Bundled,
    Fetched,
}

/// What has to happen for a provider's catalog to exist.
pub enum EnsurePlan {
    /// The file is there.
    Present,
    /// Write this bundled catalog to the file.
    WriteBundled(&'static str),
    /// Download the catalog from `url` with the key in `key_file`, widen its
    /// reasoning levels, and write it.
    Fetch { url: String, key_file: String },
    /// There is no way to get one: `label` and `catalog` name provider and file.
    Missing { label: String, catalog: String },
}

/// Makes sure the provider's catalog exists: what to do, given whether the
/// file is there. Fetching needs the API key, so it comes after the key check.
pub fn ensure_plan(p: &Provider, present: bool) -> (r: EnsurePlan)
    ensures
        match r {
            EnsurePlan::Present => present,
            EnsurePlan::WriteBundled(text) => !present && p.name@ == "openrouter"@ && text
                == OPENROUTER,
            EnsurePlan::Fetch { url, key_file } => !present && p.name@ != "openrouter"@
                && key_file@ == p.key_file@ && (p.catalog_url matches Some(u) && u@ == url@),
            EnsurePlan::Missing { label, catalog } => !present && p.name@ != "openrouter"@
                && p.catalog_url is None && label@ == p.label@ && catalog@ == p.catalog@,
        },
{
    if present {
        return EnsurePlan::Present;
    }
    if let Some(text) = bundled(p.name.as_str()) {
        return EnsurePlan::WriteBundled(text);
    }
    match &p.catalog_url {
        Some(url) => EnsurePlan::Fetch { url: url.clone(), key_file: p.key_file.clone() },
        None => EnsurePlan::Missing { label: p.label.clone(), catalog: p.catalog.clone() },
    }
}

/// The reasoning levels a fetched Z.ai catalog is widened to, as
/// `(effort, description)`. Z.ai's catalog lists fewer levels than its models
/// accept, so the app's Effort slider would show only two steps.
pub open spec fn reasoning_levels_spec() -> Seq<(Seq<char>, Seq<char>)> {
    seq![
        ("low"@, "Light reasoning"@),
        ("medium"@, "Balanced reasoning"@),
        ("high"@, "Enhanced reasoning"@),
        ("xhigh"@, "Extended reasoning"@),
        ("max"@, "Deep reasoning"@),
    ]
}

/// The reasoning levels every model of a fetched catalog gets.
pub fn reasoning_levels() -> (r: Vec<(&'static str, &'static str)>)
    ensures
        r@.map_values(|t: (&'static str, &'static str)| (t.0@, t.1@)) == reasoning_levels_spec(),
{
    let v: Vec<(&'static str, &'static str)> = vec![
        ("low", "Light reasoning"),
        ("medium", "Balanced reasoning"),
        ("high", "Enhanced reasoning"),
        ("xhigh", "Extended reasoning"),
        ("max", "Deep reasoning"),
    ];
    assert(v@.map_values(|t: (&'static str, &'static str)| (t.0@, t.1@)) =~= reasoning_levels_spec());
    v
}

/// The default reasoning level of every model of a fetched catalog. `high`,
/// because the app cannot select `max`, and a default it cannot show would
/// mislead.
pub fn default_reasoning_level() -> (r: &'static str)
    ensures
        r@ == "high"@,
{
    "high"
}


// ---------------------------------------------------------------------------
// Widening a fetched catalog
// ---------------------------------------------------------------------------

/// The levels every model of a fetched catalog gets, as JSON: objects with
/// `effort` and `description`, in order.
pub open spec fn levels_view() -> JsonView {
    JsonView::Array(
        reasoning_levels_spec().map_values(
            |l: (Seq<char>, Seq<char>)|
                JsonView::Object(
                    Map::empty().insert("effort"@, JsonView::Str(l.0)).insert(
                        "description"@,
                        JsonView::Str(l.1),
                    ),
                ),
        ),
    )
}

/// A model of a fetched catalog, widened: its fields kept, but for
/// `supported_reasoning_levels` (all the levels) and `default_reasoning_level`
/// (`high`).
pub open spec fn widened_model(m: JsonView) -> JsonView {
    JsonView::Object(
        fields_of(m).insert("supported_reasoning_levels"@, levels_view()).insert(
            "default_reasoning_level"@,
            JsonView::Str("high"@),
        ),
    )
}

/// The first `i` models of `items` widened, the rest as they are.
pub open spec fn widened_upto(items: Seq<JsonView>, i: int) -> Seq<JsonView> {
    Seq::new(items.len(), |j: int| if j < i { widened_model(items[j]) } else { items[j] })
}

/// A catalog with its first `i` models widened; its other fields kept.
pub open spec fn catalog_upto(doc: JsonView, i: int) -> JsonView {
    JsonView::Object(
        fields_of(doc).insert("models"@, JsonView::Array(widened_upto(array_at(doc, "models"@).unwrap(), i))),
    )
}

/// A catalog with every model widened.
pub open spec fn widened_catalog(doc: JsonView) -> JsonView {
    catalog_upto(doc, array_at(doc, "models"@).unwrap().len() as int)
}

/// In a widened catalog every model has all the levels, in order, and the
/// default `high`, and keeps its other fields; the catalog keeps its other
/// fields and its number of models.
pub proof fn lemma_widened_catalog(doc: JsonView)
    requires
        array_at(doc, "models"@) is Some,
    ensures
        ({
            let items = array_at(doc, "models"@).unwrap();
            let w = widened_catalog(doc);
            &&& array_at(w, "models"@) matches Some(out)
            &&& out.len() == items.len()
            &&& forall|i: int| 0 <= i < items.len() ==> {
                let f = fields_of(#[trigger] out[i]);
                &&& f["supported_reasoning_levels"@] == levels_view()
                &&& f["default_reasoning_level"@] == JsonView::Str("high"@)
                &&& forall|k: Seq<char>|
                    k != "supported_reasoning_levels"@ && k != "default_reasoning_level"@
                        ==> (f.contains_key(k) == fields_of(items[i]).contains_key(k) && (f.contains_key(k)
                        ==> f[k] == fields_of(items[i])[k]))
            }
            &&& forall|k: Seq<char>| k != "models"@ ==> fields_of(w).contains_key(k) == fields_of(doc).contains_key(k)
                && (fields_of(w).contains_key(k) ==> fields_of(w)[k] == fields_of(doc)[k])
            &&& levels_view() matches JsonView::Array(ls) && ls.len() == 5
        }),
{
    let items = array_at(doc, "models"@).unwrap();
    let out = widened_upto(items, items.len() as int);
    assert(array_at(widened_catalog(doc), "models"@) == Some(out));
    assert forall|i: int| 0 <= i < items.len() implies {
        let f = fields_of(#[trigger] out[i]);
        &&& f["supported_reasoning_levels"@] == levels_view()
        &&& f["default_reasoning_level"@] == JsonView::Str("high"@)
        &&& forall|k: Seq<char>|
            k != "supported_reasoning_levels"@ && k != "default_reasoning_level"@
                ==> (f.contains_key(k) == fields_of(items[i]).contains_key(k) && (f.contains_key(k)
                ==> f[k] == fields_of(items[i])[k]))
    } by {
        assert(out[i] == widened_model(items[i]));
        reveal_strlit("supported_reasoning_levels");
        reveal_strlit("default_reasoning_level");
        assert("supported_reasoning_levels"@ != "default_reasoning_level"@) by {
            assert("supported_reasoning_levels"@[0] != "default_reasoning_level"@[0]);
        }
    }
    assert(reasoning_levels_spec().len() == 5);
}

/// Why a fetched catalog could not be used.
pub enum CatalogError {
    /// It is not JSON.
    Unparsable,
    /// It has no `models` array of model objects.
    NoModels,
}

fn levels_json() -> (r: serde_json::Value)
    ensures
        json_view(r) == levels_view(),
{
    let levels = reasoning_levels();
    let mut items: Vec<serde_json::Value> = Vec::new();
    let mut i: usize = 0;
    let ghost spec = reasoning_levels_spec();
    let ghost f = |l: (Seq<char>, Seq<char>)|
        JsonView::Object(
            Map::empty().insert("effort"@, JsonView::Str(l.0)).insert("description"@, JsonView::Str(l.1)),
        );
    while i < levels.len()
        invariant
            i <= levels.len(),
            levels@.map_values(|t: (&'static str, &'static str)| (t.0@, t.1@)) == spec,
            spec == reasoning_levels_spec(),
            f == (|l: (Seq<char>, Seq<char>)|
                JsonView::Object(
                    Map::empty().insert("effort"@, JsonView::Str(l.0)).insert("description"@, JsonView::Str(l.1)),
                )),
            items@.map_values(|x: serde_json::Value| json_view(x)) == spec.take(i as int).map_values(f),
        decreases levels.len() - i,
    {
        let (e, d) = levels[i];
        let fields: Vec<(&str, &str)> = vec![("effort", e), ("description", d)];
        let o = object_json(&fields);
        proof {
            let fv = fields@.map_values(|x: (&str, &str)| (x.0@, JsonView::Str(x.1@)));
            assert(fv =~= seq![("effort"@, JsonView::Str(e@)), ("description"@, JsonView::Str(d@))]);
            assert(fv.drop_last() =~= seq![("effort"@, JsonView::Str(e@))]);
            assert(fv.drop_last().drop_last() =~= Seq::<(Seq<char>, JsonView)>::empty());
            assert(object_of(fv.drop_last().drop_last()) == Map::<Seq<char>, JsonView>::empty());
            assert(object_of(fv.drop_last()) == Map::<Seq<char>, JsonView>::empty().insert("effort"@, JsonView::Str(e@)));
            assert(object_of(fv) == Map::<Seq<char>, JsonView>::empty().insert("effort"@, JsonView::Str(e@)).insert("description"@, JsonView::Str(d@)));
            assert(spec[i as int] == (e@, d@));
            assert(json_view(o) == f(spec[i as int]));
        }
        let ghost prev = items@.map_values(|x: serde_json::Value| json_view(x));
        items.push(o);
        proof {
            assert(items@.map_values(|x: serde_json::Value| json_view(x)) =~= prev.push(json_view(o)));
            assert(spec.take(i + 1).map_values(f) =~= spec.take(i as int).map_values(f).push(f(spec[i as int])));
        }
        i += 1;
    }
    assert(spec.take(spec.len() as int) =~= spec);
    array_json(items)
}

/// A fetched catalog with every model given all of `reasoning_levels()`, in
/// order, and `default_reasoning_level()` as its default, its other fields
/// kept, pretty-printed. It fails when the bytes are not JSON, or have no
/// `models` array, or a model that is neither an object nor `null` (which
/// cannot take fields).
pub fn widen_catalog(raw: &[u8]) -> (r: Result<String, CatalogError>)
    ensures
        match r {
            Ok(t) => json_parse(raw@) matches Some(doc) && array_at(doc, "models"@) matches Some(items)
                && (forall|i: int| 0 <= i < items.len() ==> takes_fields(#[trigger] items[i]))
                && t@ == json_pretty_text(widened_catalog(doc)),
            Err(CatalogError::Unparsable) => json_parse(raw@) is None,
            Err(CatalogError::NoModels) => json_parse(raw@) matches Some(doc) && (array_at(
                doc,
                "models"@,
            ) matches Some(items) ==> exists|i: int|
                0 <= i < items.len() && !takes_fields(#[trigger] items[i])),
        },
{
    let mut v = match parse_json(raw) {
        Ok(v) => v,
        Err(()) => return Err(CatalogError::Unparsable),
    };
    let ghost doc = json_view(v);
    let n = match array_len(&v, "models") {
        Some(n) => n,
        None => return Err(CatalogError::NoModels),
    };
    let ghost items = array_at(doc, "models"@).unwrap();
    assert(widened_upto(items, 0) =~= items);
    proof {
        let m = fields_of(doc);
        assert(m.insert("models"@, JsonView::Array(items)) =~= m);
    }
    let mut i: usize = 0;
    while i < n
        invariant
            i <= n,
            n == items.len(),
            array_at(doc, "models"@) == Some(items),
            json_parse(raw@) == Some(doc),
            json_view(v) == catalog_upto(doc, i as int),
            forall|j: int| 0 <= j < i ==> takes_fields(#[trigger] items[j]),
        decreases n - i,
    {
        let ghost m = fields_of(doc);
        let ghost w = widened_upto(items, i as int);
        assert(fields_of(json_view(v)) == m.insert("models"@, JsonView::Array(w)));
        assert(array_at(json_view(v), "models"@) == Some(w));
        assert(w[i as int] == items[i as int]);
        if !item_takes_fields(&v, "models", i) {
            assert(!takes_fields(items[i as int]));
            return Err(CatalogError::NoModels);
        }
        let levels = levels_json();
        let ghost lv = json_view(levels);
        set_item_field(&mut v, "models", i, "supported_reasoning_levels", levels);
        let ghost it1 = JsonView::Object(fields_of(items[i as int]).insert("supported_reasoning_levels"@, lv));
        let ghost w1 = w.update(i as int, it1);
        proof {
            assert(m.insert("models"@, JsonView::Array(w)).insert("models"@, JsonView::Array(w1)) =~= m.insert(
                "models"@,
                JsonView::Array(w1),
            ));
            assert(json_view(v) == JsonView::Object(m.insert("models"@, JsonView::Array(w1))));
            assert(array_at(json_view(v), "models"@) == Some(w1));
            assert(w1[i as int] == it1);
        }
        let high = string_json(default_reasoning_level());
        set_item_field(&mut v, "models", i, "default_reasoning_level", high);
        proof {
            let it2 = JsonView::Object(fields_of(it1).insert("default_reasoning_level"@, JsonView::Str("high"@)));
            let w2 = w1.update(i as int, it2);
            assert(m.insert("models"@, JsonView::Array(w1)).insert("models"@, JsonView::Array(w2)) =~= m.insert(
                "models"@,
                JsonView::Array(w2),
            ));
            assert(it2 == widened_model(items[i as int]));
            assert(w2 =~= widened_upto(items, i + 1));
            assert(json_view(v) == catalog_upto(doc, i + 1));
        }
        i += 1;
    }
    Ok(pretty_json(&v))
}

} // verus!
