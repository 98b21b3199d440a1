//! The model list endpoint and the mapping of requested model names.
use vstd::prelude::*;
use crate::config::{ModelConfig, clone_string, pairs_view};
use crate::text::{chars_of, lex_sorted, occurs_at, sort_strings, string_views};

verus! {

#[derive(Debug)]
pub struct ModelItem {
    pub id: String,
    pub object: String,
    pub created: u64,
    pub owned_by: String,
}

#[derive(Debug)]
pub struct ModelListResponse {
    pub object: String,
    pub data: Vec<ModelItem>,
}

/// The fixed creation time reported for every model.
pub open spec fn model_created() -> u64 {
    1_726_000_000
}

/// The aliases other than the primary model, in table order.
pub open spec fn other_aliases(a: Seq<(Seq<char>, Seq<char>)>, primary: Seq<char>) -> Seq<Seq<char>>
    decreases a.len(),
{
    if a.len() == 0 {
        seq![]
    } else {
        let rest = other_aliases(a.drop_last(), primary);
        if a.last().0 != primary {
            rest.push(a.last().0)
        } else {
            rest
        }
    }
}

/// The model names the list endpoint offers: the primary model and every alias.
pub open spec fn listed_models(cfg: ModelConfig) -> Seq<Seq<char>> {
    seq![cfg.primary@] + other_aliases(pairs_view(cfg.aliases@), cfg.primary@)
}

pub open spec fn item_ids(d: Seq<ModelItem>) -> Seq<Seq<char>> {
    d.map_values(|m: ModelItem| m.id@)
}

/// The `/models` answer: every listed model once per listing, sorted by name.
pub fn build_model_list(model_config: &ModelConfig) -> (r: ModelListResponse)
    ensures
        r.object@ == "list"@,
        lex_sorted(item_ids(r.data@)),
        item_ids(r.data@).to_multiset() == listed_models(*model_config).to_multiset(),
        forall|i: int|
            0 <= i < r.data@.len() ==> (#[trigger] r.data@[i]).object@ == "model"@ && r.data@[i].created
                == model_created() && r.data@[i].owned_by@ == "google"@,
{
    let mut names: Vec<String> = Vec::new();
    names.push(clone_string(&model_config.primary));
    let ghost a = pairs_view(model_config.aliases@);
    let ghost p = model_config.primary@;
    assert(string_views(names@) =~= seq![p] + other_aliases(a.take(0), p));
    let n = model_config.aliases.len();
    let mut i: usize = 0;
    while i < n
        invariant
            i <= n == model_config.aliases@.len(),
            a == pairs_view(model_config.aliases@),
            p == model_config.primary@,
            string_views(names@) == seq![p] + other_aliases(a.take(i as int), p),
        decreases n - i,
    {
        let alias = &model_config.aliases[i].0;
        assert(a.take(i + 1).drop_last() =~= a.take(i as int));
        assert(a.take(i + 1).last().0 == alias@);
        if *alias != model_config.primary {
            let ghost before = string_views(names@);
            names.push(clone_string(alias));
            assert(string_views(names@) =~= before.push(alias@));
        }
        i = i + 1;
    }
    assert(a.take(n as int) =~= a);
    let sorted = sort_strings(names);
    let mut data: Vec<ModelItem> = Vec::new();
    let m = sorted.len();
    let mut k: usize = 0;
    while k < m
        invariant
            k <= m == sorted@.len(),
            item_ids(data@) =~= string_views(sorted@).take(k as int),
            forall|j: int|
                0 <= j < data@.len() ==> (#[trigger] data@[j]).object@ == "model"@ && data@[j].created
                    == model_created() && data@[j].owned_by@ == "google"@,
        decreases m - k,
    {
        let ghost before = item_ids(data@);
        let item = ModelItem {
            id: clone_string(&sorted[k]),
            object: "model".to_owned(),
            created: 1_726_000_000,
            owned_by: "google".to_owned(),
        };
        data.push(item);
        assert(item_ids(data@) =~= before.push(sorted@[k as int]@));
        assert(string_views(sorted@).take(k + 1) =~= string_views(sorted@).take(k as int).push(sorted@[k as int]@));
        k = k + 1;
    }
    assert(string_views(sorted@).take(m as int) =~= string_views(sorted@));
    ModelListResponse { object: "list".to_owned(), data }
}

/// The target of the first alias named `model`, if any.
pub open spec fn alias_target(a: Seq<(Seq<char>, Seq<char>)>, model: Seq<char>) -> Option<Seq<char>>
    decreases a.len(),
{
    if a.len() == 0 {
        None
    } else if a[0].0 == model {
        Some(a[0].1)
    } else {
        alias_target(a.drop_first(), model)
    }
}

/// The upstream model a request for `model` is sent to: the alias target when
/// `model` is an alias, `model` itself when it names a Gemini model, else the primary model.
pub open spec fn resolve_model_spec(cfg: ModelConfig, model: Seq<char>) -> Seq<char> {
    match alias_target(pairs_view(cfg.aliases@), model) {
        Some(t) => t,
        None => if occurs_at(model, "gemini-"@, 0) {
            model
        } else {
            cfg.primary@
        },
    }
}

/// Resolves a requested model name (see `resolve_model_spec`).
pub fn resolve_model(model_config: &ModelConfig, model: &str) -> (r: String)
    ensures
        r@ == resolve_model_spec(*model_config, model@),
{
    let ghost a = pairs_view(model_config.aliases@);
    let want = model.to_owned();
    let n = model_config.aliases.len();
    let mut i: usize = 0;
    assert(a.skip(0) =~= a);
    while i < n
        invariant
            i <= n == model_config.aliases@.len(),
            a == pairs_view(model_config.aliases@),
            want@ == model@,
            alias_target(a, model@) == alias_target(a.skip(i as int), model@),
        decreases n - i,
    {
        assert(a.skip(i as int).drop_first() =~= a.skip(i + 1));
        assert(a.skip(i as int)[0] == (model_config.aliases@[i as int].0@, model_config.aliases@[i as int].1@));
        if model_config.aliases[i].0 == want {
            return clone_string(&model_config.aliases[i].1);
        }
        i = i + 1;
    }
    assert(a.skip(n as int) =~= Seq::<(Seq<char>, Seq<char>)>::empty());
    let v = chars_of(model);
    let prefix = chars_of("gemini-");
    proof {
        crate::text::lemma_find_from(v@, prefix@, 0);
    }
    assert(v@.len() == v.len());
    let is_gemini = match crate::text::find(&v, &prefix, 0) {
        Some(k) => {
            assert(occurs_at(v@, prefix@, k as int));
            assert(k > 0 ==> !occurs_at(v@, prefix@, 0));
            k == 0
        },
        None => {
            assert(!occurs_at(v@, prefix@, 0));
            false
        },
    };
    assert(is_gemini == occurs_at(model@, "gemini-"@, 0));
    if is_gemini {
        want
    } else {
        clone_string(&model_config.primary)
    }
}

} // verus!

verus! {

proof fn lemma_other_aliases_cover(a: Seq<(Seq<char>, Seq<char>)>, primary: Seq<char>, i: int)
    requires
        0 <= i < a.len(),
        a[i].0 != primary,
    ensures
        other_aliases(a, primary).contains(a[i].0),
    decreases a.len(),
{
    let rest = other_aliases(a.drop_last(), primary);
    if i == a.len() - 1 {
        assert(other_aliases(a, primary) == rest.push(a.last().0));
        assert(other_aliases(a, primary)[rest.len() as int] == a[i].0);
    } else {
        lemma_other_aliases_cover(a.drop_last(), primary, i);
        let j = choose|j: int| 0 <= j < rest.len() && rest[j] == a[i].0;
        if a.last().0 != primary {
            assert(other_aliases(a, primary)[j] == a[i].0);
        }
    }
}

/// The model list offers the primary model and the name of every alias.
pub proof fn law_model_list_covers_config(cfg: ModelConfig, ids: Seq<Seq<char>>, name: Seq<char>)
    requires
        ids.to_multiset() == listed_models(cfg).to_multiset(),
        name == cfg.primary@ || exists|i: int|
            0 <= i < cfg.aliases@.len() && (#[trigger] cfg.aliases@[i]).0@ == name,
    ensures
        ids.contains(name),
{
    let l = listed_models(cfg);
    let a = pairs_view(cfg.aliases@);
    if name == cfg.primary@ {
        assert(l[0] == name);
    } else {
        let i = choose|i: int| 0 <= i < cfg.aliases@.len() && (#[trigger] cfg.aliases@[i]).0@ == name;
        assert(a[i].0 == name);
        lemma_other_aliases_cover(a, cfg.primary@, i);
        let j = choose|j: int|
            0 <= j < other_aliases(a, cfg.primary@).len() && other_aliases(a, cfg.primary@)[j] == name;
        assert(l[j + 1] == name);
    }
    assert(l.contains(name));
    l.to_multiset_ensures();
    ids.to_multiset_ensures();
    assert(l.to_multiset().count(name) > 0);
    assert(ids.to_multiset().count(name) > 0);
}

} // verus!
