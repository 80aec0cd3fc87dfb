//! The pages of the "hello" components: their Handlebars template rendered
//! with the region of the instance and the visits counted in the store.
use vstd::prelude::*;
use crate::store::{kept_spec, kept_values, pair_texts};
use crate::tally::{
    checked_region_totals, counts_readable, lemma_totals_order_free, pairs_text, region_totals_spec,
    totals_fit, Counter, RegionTotals, StatsView,
};
use crate::web::{opt_text, page_reply, untyped_page_reply, utf8, Reply};
use handlebars::Handlebars;
use serde_json::Value;

verus! {

/// What Handlebars renders from the `fly-hello` template `template` with the
/// context `{code, location, region_data}`, where `region_data` maps each key
/// of `region_data` to its value (a later pair of a key wins); `None` when
/// rendering fails.
pub uninterp spec fn fly_page(
    template: Seq<char>,
    code: Seq<char>,
    location: Seq<char>,
    region_data: Seq<(Seq<char>, Seq<char>)>,
) -> Option<Seq<char>>;

/// `handlebars::Handlebars::render_template` on the `fly-hello` template.
/// The context is a JSON object with the strings `code` and `location` and
/// the object `region_data` built from the pairs. Trusted: the result is
/// `fly_page` of the arguments; rendering itself is not described further.
#[verifier::external_body]
fn render_fly_page(template: &str, code: &str, location: &str, region_data: &Vec<(String, String)>) -> (r:
    Option<String>)
    ensures
        r is None <==> fly_page(template@, code@, location@, pair_texts(region_data@)) is None,
        r matches Some(s) ==> fly_page(template@, code@, location@, pair_texts(region_data@)) == Some(
            s@,
        ),
{
    let data = Value::from_iter(region_data.iter().cloned());
    let context = Value::from_iter([("code", Value::from(code)), ("location", location.into()), ("region_data", data)]);
    Handlebars::new().render_template(template, &context).ok()
}

/// What Handlebars renders from the `cloud-hello` template `template` with
/// the context `{code, location, region_data, region_json}`, where
/// `region_data` holds, for each region of `totals`, the objects `os` and
/// `browsers` (counts by name) and the number `visits`, and `region_json` is
/// the compact JSON text of `region_data` (every JSON object with its keys in
/// sorted order); `None` when rendering fails.
pub uninterp spec fn cloud_page(
    template: Seq<char>,
    code: Seq<char>,
    location: Seq<char>,
    totals: Map<Seq<char>, StatsView>,
) -> Option<Seq<char>>;

/// `handlebars::Handlebars::render_template` on the `cloud-hello` template,
/// with `region_json` made by `serde_json`'s `to_string` of the same JSON
/// value as `region_data`. Trusted: the result is `cloud_page` of the
/// arguments (the totals taken by their view, which a well-formed value
/// determines); rendering itself is not described further.
#[verifier::external_body]
fn render_cloud_page(template: &str, code: &str, location: &str, totals: &RegionTotals) -> (r: Option<
    String,
>)
    requires
        totals.wf(),
    ensures
        r is None <==> cloud_page(template@, code@, location@, totals@) is None,
        r matches Some(s) ==> cloud_page(template@, code@, location@, totals@) == Some(s@),
{
    let counts = |cs: &Vec<Counter>| Value::from_iter(cs.iter().map(|c| (c.name.clone(), c.count)));
    let data = Value::from_iter(totals.regions.iter().map(|r| (r.region.clone(), Value::from_iter([
        ("os", counts(&r.stats.os)), ("browsers", counts(&r.stats.browsers)), ("visits", r.stats.visits.into()),
    ]))));
    let json = data.to_string();
    let context = Value::from_iter([("code", Value::from(code)), ("location", location.into()),
        ("region_data", data), ("region_json", json.into())]);
    Handlebars::new().render_template(template, &context).ok()
}

/// The `fly-hello` page: the template rendered with the region's code and
/// name and, for each listed key whose read gave a value, that value; status
/// 200 with no `Content-Type`. `None` when the template does not render.
pub fn fly_page_reply(
    template: &str,
    code: &str,
    location: &str,
    keys: &Vec<String>,
    reads: &Vec<Result<Option<String>, String>>,
) -> (r: Option<Reply>)
    requires
        keys@.len() == reads@.len(),
    ensures
        r is None <==> fly_page(template@, code@, location@, kept_spec(keys@, reads@)) is None,
        r matches Some(reply) ==> {
            &&& fly_page(template@, code@, location@, kept_spec(keys@, reads@)) matches Some(page)
            &&& reply.status == 200
            &&& reply.content_type is None
            &&& reply.body@ == utf8(page)
        },
{
    let counts = kept_values(keys, reads);
    match render_fly_page(template, code, location, &counts) {
        Some(page) => Some(untyped_page_reply(page.as_str())),
        None => None,
    }
}

/// The `cloud-hello` page: the template rendered with the region's code and
/// name and the totals per region of the store's `(key, value)` pairs
/// `data`; status 200, typed `text/html`. `None` when a counter holds no
/// number, when a total does not fit in 64 bits, or when the template does
/// not render.
pub fn cloud_page_reply(template: &str, code: &str, location: &str, data: &Vec<(String, String)>) -> (r:
    Option<Reply>)
    ensures
        r is None <==> !(counts_readable(pairs_text(data@)) && totals_fit(pairs_text(data@)))
            || cloud_page(template@, code@, location@, region_totals_spec(pairs_text(data@))) is None,
        r matches Some(reply) ==> {
            &&& cloud_page(template@, code@, location@, region_totals_spec(pairs_text(data@))) matches Some(
                page,
            )
            &&& reply.status == 200
            &&& opt_text(reply.content_type) == Some("text/html"@)
            &&& reply.body@ == utf8(page)
        },
{
    match checked_region_totals(data) {
        None => None,
        Some(totals) => match render_cloud_page(template, code, location, &totals) {
            Some(page) => Some(page_reply(page.as_str())),
            None => None,
        },
    }
}

/// The `cloud-hello` page does not depend on the order in which the store
/// lists its counters: the same `(key, value)` pairs, in any order, render
/// the same page.
pub proof fn lemma_cloud_page_order_free(
    template: Seq<char>,
    code: Seq<char>,
    location: Seq<char>,
    d1: Seq<(Seq<char>, Seq<char>)>,
    d2: Seq<(Seq<char>, Seq<char>)>,
)
    requires
        d1.to_multiset() == d2.to_multiset(),
    ensures
        cloud_page(template, code, location, region_totals_spec(d1)) == cloud_page(
            template,
            code,
            location,
            region_totals_spec(d2),
        ),
{
    lemma_totals_order_free(d1, d2);
}

} // verus!
