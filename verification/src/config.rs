//! Merging of `~/.local-code/config.json` with a project override
//! (`.local-code.json`). Providers are merged by id across (defaults, user
//! config, project config): later lists override the fields they set, but a
//! provider keeps the list position of its first appearance. Reading and
//! writing the files is the caller's part.

use vstd::prelude::*;
use crate::text::{join_path, path_join};
use crate::types::{
    opt_view, provider_views, ConfigView, LocalCodeConfig, ProviderConfig, ProviderType,
    ProviderView,
};

verus! {

/// A provider entry as read from a config file, every field optional.
#[derive(Debug)]
pub struct RawProviderConfig {
    pub id: Option<String>,
    pub kind: Option<ProviderType>,
    pub base_url: Option<String>,
    pub api_key: Option<String>,
    pub label: Option<String>,
}

/// A config file as read, every field optional.
#[derive(Debug)]
pub struct RawConfig {
    pub providers: Option<Vec<RawProviderConfig>>,
    pub default_provider: Option<String>,
    pub default_model: Option<String>,
    pub auto_approve: Option<bool>,
}

pub struct RawProviderView {
    pub id: Option<Seq<char>>,
    pub kind: Option<ProviderType>,
    pub base_url: Option<Seq<char>>,
    pub api_key: Option<Seq<char>>,
    pub label: Option<Seq<char>>,
}

impl View for RawProviderConfig {
    type V = RawProviderView;

    open spec fn view(&self) -> RawProviderView {
        RawProviderView {
            id: opt_view(self.id),
            kind: self.kind,
            base_url: opt_view(self.base_url),
            api_key: opt_view(self.api_key),
            label: opt_view(self.label),
        }
    }
}

pub open spec fn raw_views(s: Seq<RawProviderConfig>) -> Seq<RawProviderView> {
    s.map_values(|p: RawProviderConfig| p@)
}

/// `b`'s fields where it sets them, `a`'s elsewhere; `a`'s id.
pub open spec fn merge_one(a: RawProviderView, b: RawProviderView) -> RawProviderView {
    RawProviderView {
        id: a.id,
        kind: if b.kind is Some { b.kind } else { a.kind },
        base_url: if b.base_url is Some { b.base_url } else { a.base_url },
        api_key: if b.api_key is Some { b.api_key } else { a.api_key },
        label: if b.label is Some { b.label } else { a.label },
    }
}

fn clone_opt(s: &Option<String>) -> (r: Option<String>)
    ensures
        r == *s,
{
    match s {
        Some(v) => Some(v.clone()),
        None => None,
    }
}

impl RawProviderConfig {
    /// Takes every field that `other` sets, except the id.
    pub fn merge_from(&mut self, other: &RawProviderConfig)
        ensures
            final(self)@ == merge_one(old(self)@, other@),
    {
        if other.kind.is_some() {
            self.kind = other.kind;
        }
        if other.base_url.is_some() {
            self.base_url = clone_opt(&other.base_url);
        }
        if other.api_key.is_some() {
            self.api_key = clone_opt(&other.api_key);
        }
        if other.label.is_some() {
            self.label = clone_opt(&other.label);
        }
    }

    fn copy(&self) -> (r: RawProviderConfig)
        ensures
            r@ == self@,
    {
        RawProviderConfig {
            id: clone_opt(&self.id),
            kind: self.kind,
            base_url: clone_opt(&self.base_url),
            api_key: clone_opt(&self.api_key),
            label: clone_opt(&self.label),
        }
    }
}

/// Index of the first entry with id `x`, or -1.
pub open spec fn find_first(s: Seq<RawProviderView>, x: Seq<char>) -> int
    decreases s.len(),
{
    if s.len() == 0 {
        -1
    } else if s[0].id == Some(x) {
        0
    } else {
        let r = find_first(s.drop_first(), x);
        if r < 0 {
            -1
        } else {
            r + 1
        }
    }
}

/// Entries merged by id in order: an entry without id is skipped, one with a
/// new id is appended, one with a known id is merged into that entry.
pub open spec fn merge_spec(l: Seq<RawProviderView>) -> Seq<RawProviderView>
    decreases l.len(),
{
    if l.len() == 0 {
        seq![]
    } else {
        let prev = merge_spec(l.drop_last());
        let p = l.last();
        match p.id {
            None => prev,
            Some(x) => {
                let k = find_first(prev, x);
                if k >= 0 {
                    prev.update(k, merge_one(prev[k], p))
                } else {
                    prev.push(p)
                }
            },
        }
    }
}

/// The lists one after another.
pub open spec fn concat_lists<A>(lists: Seq<Seq<A>>) -> Seq<A>
    decreases lists.len(),
{
    if lists.len() == 0 {
        seq![]
    } else {
        concat_lists(lists.drop_last()) + lists.last()
    }
}

pub proof fn lemma_find_first(s: Seq<RawProviderView>, x: Seq<char>)
    ensures
        -1 <= find_first(s, x) < s.len(),
        find_first(s, x) >= 0 ==> s[find_first(s, x)].id == Some(x),
        forall|m: int|
            0 <= m < s.len() && (find_first(s, x) < 0 || m < find_first(s, x)) ==> s[m].id != Some(x),
    decreases s.len(),
{
    if s.len() > 0 && s[0].id != Some(x) {
        lemma_find_first(s.drop_first(), x);
        assert forall|m: int|
            0 <= m < s.len() && (find_first(s, x) < 0 || m < find_first(s, x)) implies s[m].id != Some(x) by {
            if m > 0 {
                assert(s[m] == s.drop_first()[m - 1]);
            }
        }
    }
}

pub proof fn lemma_find_first_unique(s: Seq<RawProviderView>, x: Seq<char>, k: int)
    requires
        -1 <= k < s.len(),
        k >= 0 ==> s[k].id == Some(x),
        forall|m: int| 0 <= m < s.len() && (k < 0 || m < k) ==> s[m].id != Some(x),
    ensures
        find_first(s, x) == k,
{
    lemma_find_first(s, x);
    let f = find_first(s, x);
    if f >= 0 && k >= 0 {
        if f < k {
        } else if k < f {
        }
    }
}

fn find_index(out: &Vec<RawProviderConfig>, id: &String) -> (r: Option<usize>)
    ensures
        match r {
            Some(k) => find_first(raw_views(out@), id@) == k,
            None => find_first(raw_views(out@), id@) == -1,
        },
{
    let ghost v = raw_views(out@);
    let mut k: usize = 0;
    while k < out.len()
        invariant
            v == raw_views(out@),
            k <= out@.len(),
            forall|m: int| 0 <= m < k ==> v[m].id != Some(id@),
        decreases out@.len() - k,
    {
        let found = match &out[k].id {
            Some(s) => *s == *id,
            None => false,
        };
        if found {
            proof {
                lemma_find_first_unique(v, id@, k as int);
            }
            return Some(k);
        }
        k += 1;
    }
    proof {
        lemma_find_first_unique(v, id@, -1);
    }
    None
}

/// The built-in providers: Ollama and LM Studio on their default ports.
pub open spec fn default_providers_spec() -> Seq<RawProviderView> {
    seq![
        RawProviderView {
            id: Some("ollama"@),
            kind: Some(ProviderType::Ollama),
            base_url: Some("http://localhost:11434"@),
            api_key: None,
            label: Some("Ollama"@),
        },
        RawProviderView {
            id: Some("lmstudio"@),
            kind: Some(ProviderType::OpenAiCompatible),
            base_url: Some("http://localhost:1234/v1"@),
            api_key: None,
            label: Some("LM Studio"@),
        },
    ]
}

/// The built-in providers: Ollama and LM Studio on their default ports.
pub fn default_providers() -> (r: Vec<RawProviderConfig>)
    ensures
        raw_views(r@) == default_providers_spec(),
{
    let r = vec![
        RawProviderConfig {
            id: Some("ollama".to_owned()),
            kind: Some(ProviderType::Ollama),
            base_url: Some("http://localhost:11434".to_owned()),
            api_key: None,
            label: Some("Ollama".to_owned()),
        },
        RawProviderConfig {
            id: Some("lmstudio".to_owned()),
            kind: Some(ProviderType::OpenAiCompatible),
            base_url: Some("http://localhost:1234/v1".to_owned()),
            api_key: None,
            label: Some("LM Studio".to_owned()),
        },
    ];
    assert(raw_views(r@) =~= default_providers_spec());
    r
}

pub open spec fn lists_view(lists: Seq<Vec<RawProviderConfig>>) -> Seq<Seq<RawProviderView>> {
    lists.map_values(|v: Vec<RawProviderConfig>| raw_views(v@))
}

/// Merges the lists by id, in order (see `merge_spec`).
pub fn merge_providers(lists: Vec<Vec<RawProviderConfig>>) -> (r: Vec<RawProviderConfig>)
    ensures
        raw_views(r@) == merge_spec(concat_lists(lists_view(lists@))),
{
    let mut out: Vec<RawProviderConfig> = Vec::new();
    let mut i: usize = 0;
    assert(raw_views(out@) =~= Seq::<RawProviderView>::empty());
    assert(lists_view(lists@).take(0) =~= Seq::<Seq<RawProviderView>>::empty());
    while i < lists.len()
        invariant
            i <= lists@.len(),
            raw_views(out@) == merge_spec(concat_lists(lists_view(lists@).take(i as int))),
        decreases lists@.len() - i,
    {
        let list = &lists[i];
        let ghost done = concat_lists(lists_view(lists@).take(i as int));
        let ghost lv = raw_views(list@);
        proof {
            assert(lists_view(lists@).take(i + 1).drop_last() =~= lists_view(lists@).take(i as int));
            assert(lists_view(lists@).take(i + 1).last() == lv);
            assert(done + lv.take(0) =~= done);
        }
        let mut j: usize = 0;
        while j < list.len()
            invariant
                lv == raw_views(list@),
                j <= list@.len(),
                raw_views(out@) == merge_spec(done + lv.take(j as int)),
            decreases list@.len() - j,
        {
            let p = &list[j];
            let ghost l = done + lv.take(j as int);
            let ghost prev = raw_views(out@);
            proof {
                assert((done + lv.take(j + 1)).drop_last() =~= l);
                assert((done + lv.take(j + 1)).last() == p@);
            }
            match &p.id {
                None => {},
                Some(id) => {
                    match find_index(&out, id) {
                        Some(k) => {
                            proof {
                                lemma_find_first(prev, id@);
                            }
                            out[k].merge_from(p);
                            proof {
                                assert(raw_views(out@) =~= prev.update(k as int, merge_one(prev[k as int], p@)));
                            }
                        },
                        None => {
                            out.push(p.copy());
                            proof {
                                assert(raw_views(out@) =~= prev.push(p@));
                            }
                        },
                    }
                },
            }
            j += 1;
        }
        proof {
            assert(lv.take(list@.len() as int) =~= lv);
        }
        i += 1;
    }
    proof {
        assert(lists_view(lists@).take(lists@.len() as int) =~= lists_view(lists@));
    }
    out
}


/// The last value that an entry with id `x` sets for the field `f`.
pub open spec fn last_set<T>(l: Seq<RawProviderView>, x: Seq<char>, f: spec_fn(RawProviderView) -> Option<T>) -> Option<T>
    decreases l.len(),
{
    if l.len() == 0 {
        None
    } else if l.last().id == Some(x) && f(l.last()) is Some {
        f(l.last())
    } else {
        last_set(l.drop_last(), x, f)
    }
}

proof fn lemma_find_first_push(s: Seq<RawProviderView>, p: RawProviderView, x: Seq<char>)
    ensures
        find_first(s.push(p), x) == if find_first(s, x) >= 0 {
            find_first(s, x)
        } else if p.id == Some(x) {
            s.len() as int
        } else {
            -1
        },
{
    lemma_find_first(s, x);
    let t = s.push(p);
    let k = if find_first(s, x) >= 0 {
        find_first(s, x)
    } else if p.id == Some(x) {
        s.len() as int
    } else {
        -1
    };
    assert forall|m: int| 0 <= m < t.len() && (k < 0 || m < k) implies t[m].id != Some(x) by {
        if m < s.len() {
            assert(t[m] == s[m]);
        }
    }
    lemma_find_first_unique(t, x, k);
}

proof fn lemma_find_first_update(s: Seq<RawProviderView>, k: int, v: RawProviderView, x: Seq<char>)
    requires
        0 <= k < s.len(),
        v.id == s[k].id,
    ensures
        find_first(s.update(k, v), x) == find_first(s, x),
{
    lemma_find_first(s, x);
    lemma_find_first_unique(s.update(k, v), x, find_first(s, x));
}

proof fn lemma_last_set_absent<T>(l: Seq<RawProviderView>, x: Seq<char>, f: spec_fn(RawProviderView) -> Option<T>)
    requires
        find_first(l, x) == -1,
    ensures
        last_set(l, x, f) is None,
    decreases l.len(),
{
    if l.len() > 0 {
        lemma_find_first(l, x);
        lemma_find_first(l.drop_last(), x);
        lemma_find_first_push(l.drop_last(), l.last(), x);
        assert(l.drop_last().push(l.last()) =~= l);
        lemma_last_set_absent(l.drop_last(), x, f);
    }
}

/// What merging keeps, stated over the input entries `l`.
proof fn lemma_merge_props(l: Seq<RawProviderView>)
    ensures
        forall|k: int| 0 <= k < merge_spec(l).len() ==> (#[trigger] merge_spec(l)[k]).id is Some,
        forall|a: int, b: int|
            0 <= a < merge_spec(l).len() && 0 <= b < merge_spec(l).len() && a != b
                ==> #[trigger] merge_spec(l)[a].id != #[trigger] merge_spec(l)[b].id,
        forall|x: Seq<char>| (#[trigger] find_first(merge_spec(l), x) >= 0) == (find_first(l, x) >= 0),
        forall|a: int, b: int|
            0 <= a < b < merge_spec(l).len() ==> find_first(l, (#[trigger] merge_spec(l)[a]).id->0)
                < find_first(l, (#[trigger] merge_spec(l)[b]).id->0),
    decreases l.len(),
{
    if l.len() > 0 {
        let lp = l.drop_last();
        let p = l.last();
        let mp = merge_spec(lp);
        let m = merge_spec(l);
        lemma_merge_props(lp);
        assert(lp.push(p) =~= l);
        assert forall|x: Seq<char>| #[trigger] find_first(l, x) == (if find_first(lp, x) >= 0 {
            find_first(lp, x)
        } else if p.id == Some(x) {
            lp.len() as int
        } else {
            -1
        }) by {
            lemma_find_first_push(lp, p, x);
        }
        match p.id {
            None => {
                assert forall|a: int| 0 <= a < mp.len() implies find_first(lp, (#[trigger] mp[a]).id->0) >= 0 by {
                    lemma_find_first(mp, mp[a].id->0);
                    assert(find_first(mp, mp[a].id->0) >= 0);
                }
            },
            Some(y) => {
                let k = find_first(mp, y);
                lemma_find_first(mp, y);
                if k >= 0 {
                    assert forall|x: Seq<char>| #[trigger] find_first(m, x) == find_first(mp, x) by {
                        lemma_find_first_update(mp, k, merge_one(mp[k], p), x);
                    }
                    assert forall|a: int| 0 <= a < m.len() implies (#[trigger] m[a]).id == mp[a].id by {}
                    assert forall|a: int| 0 <= a < mp.len() implies find_first(lp, (#[trigger] mp[a]).id->0) >= 0 by {
                        lemma_find_first(mp, mp[a].id->0);
                        assert(find_first(mp, mp[a].id->0) >= 0);
                    }
                } else {
                    assert forall|x: Seq<char>| #[trigger] find_first(m, x) == (if find_first(mp, x) >= 0 {
                        find_first(mp, x)
                    } else if p.id == Some(x) {
                        mp.len() as int
                    } else {
                        -1
                    }) by {
                        lemma_find_first_push(mp, p, x);
                    }
                    assert forall|a: int| 0 <= a < mp.len() implies 0 <= find_first(lp, (#[trigger] mp[a]).id->0) < lp.len() by {
                        lemma_find_first(mp, mp[a].id->0);
                        assert(find_first(mp, mp[a].id->0) >= 0);
                        lemma_find_first(lp, mp[a].id->0);
                    }
                    lemma_find_first(lp, y);
                    assert forall|a: int, b: int|
                        0 <= a < b < m.len() implies find_first(l, (#[trigger] m[a]).id->0)
                            < find_first(l, (#[trigger] m[b]).id->0) by {
                        if b == mp.len() {
                            assert(m[b] == p);
                            assert(0 <= find_first(lp, mp[a].id->0) < lp.len());
                        } else {
                            assert(m[a] == mp[a]);
                            assert(m[b] == mp[b]);
                            assert(find_first(lp, mp[a].id->0) >= 0);
                            lemma_find_first(mp, mp[b].id->0);
                            assert(find_first(mp, mp[b].id->0) >= 0);
                        }
                    }
                    assert forall|a: int| 0 <= a < mp.len() implies (#[trigger] m[a]) == mp[a] by {}
                    assert(m[mp.len() as int] == p);
                    assert forall|a: int| 0 <= a < mp.len() implies (#[trigger] mp[a]).id != Some(y) by {}
                    lemma_find_first(lp, y);
                }
            },
        }
    }
}

/// Merging providers by id: every merged entry has an id; no id occurs
/// twice; an id is merged exactly when some entry has it; entries are in the
/// order in which their ids first appear; and each field is the last value
/// that an entry with that id sets.
pub proof fn lemma_merge_providers_laws(l: Seq<RawProviderView>, x: Seq<char>)
    ensures
        forall|k: int| 0 <= k < merge_spec(l).len() ==> (#[trigger] merge_spec(l)[k]).id is Some,
        forall|a: int, b: int|
            0 <= a < merge_spec(l).len() && 0 <= b < merge_spec(l).len() && a != b
                ==> #[trigger] merge_spec(l)[a].id != #[trigger] merge_spec(l)[b].id,
        (find_first(merge_spec(l), x) >= 0) == (find_first(l, x) >= 0),
        forall|a: int, b: int|
            0 <= a < b < merge_spec(l).len() ==> find_first(l, (#[trigger] merge_spec(l)[a]).id->0)
                < find_first(l, (#[trigger] merge_spec(l)[b]).id->0),
        find_first(merge_spec(l), x) >= 0 ==> ({
            let e = merge_spec(l)[find_first(merge_spec(l), x)];
            &&& e.kind == last_set(l, x, |v: RawProviderView| v.kind)
            &&& e.base_url == last_set(l, x, |v: RawProviderView| v.base_url)
            &&& e.api_key == last_set(l, x, |v: RawProviderView| v.api_key)
            &&& e.label == last_set(l, x, |v: RawProviderView| v.label)
        }),
{
    lemma_merge_props(l);
    lemma_merge_last_set(l, x, |v: RawProviderView| v.kind);
    lemma_merge_last_set(l, x, |v: RawProviderView| v.base_url);
    lemma_merge_last_set(l, x, |v: RawProviderView| v.api_key);
    lemma_merge_last_set(l, x, |v: RawProviderView| v.label);
}

proof fn lemma_merge_last_set<T>(l: Seq<RawProviderView>, x: Seq<char>, f: spec_fn(RawProviderView) -> Option<T>)
    requires
        forall|a: RawProviderView, b: RawProviderView| #[trigger] f(merge_one(a, b)) == if f(b) is Some {
            f(b)
        } else {
            f(a)
        },
    ensures
        find_first(merge_spec(l), x) >= 0 ==> f(merge_spec(l)[find_first(merge_spec(l), x)]) == last_set(l, x, f),
    decreases l.len(),
{
    if l.len() > 0 {
        let lp = l.drop_last();
        let p = l.last();
        let mp = merge_spec(lp);
        let m = merge_spec(l);
        lemma_merge_last_set(lp, x, f);
        lemma_merge_props(lp);
        lemma_find_first(mp, x);
        match p.id {
            None => {},
            Some(y) => {
                let k = find_first(mp, y);
                lemma_find_first(mp, y);
                if k >= 0 {
                    lemma_find_first_update(mp, k, merge_one(mp[k], p), x);
                } else {
                    lemma_find_first_push(mp, p, x);
                    if y == x {
                        lemma_last_set_absent(lp, x, f);
                        assert(m[mp.len() as int] == p);
                    }
                }
            },
        }
    }
}

/// The provider an entry describes, if it has an id, a type and a base URL.
pub open spec fn finalize_spec(v: RawProviderView) -> Option<ProviderView> {
    match (v.id, v.kind, v.base_url) {
        (Some(id), Some(kind), Some(base_url)) => Some(
            ProviderView { id, kind, base_url, api_key: v.api_key, label: v.label },
        ),
        _ => None,
    }
}

/// The provider an entry describes, if it has an id, a type and a base URL.
pub fn finalize_provider(raw: RawProviderConfig) -> (r: Option<ProviderConfig>)
    ensures
        match r {
            Some(p) => finalize_spec(raw@) == Some(p@),
            None => finalize_spec(raw@) is None,
        },
{
    match (raw.id, raw.kind, raw.base_url) {
        (Some(id), Some(kind), Some(base_url)) => Some(
            ProviderConfig { id, kind, base_url, api_key: raw.api_key, label: raw.label },
        ),
        _ => None,
    }
}

/// The complete providers among merged entries, in order.
pub open spec fn finalize_all(s: Seq<RawProviderView>) -> Seq<ProviderView>
    decreases s.len(),
{
    if s.len() == 0 {
        seq![]
    } else {
        let prev = finalize_all(s.drop_last());
        match finalize_spec(s.last()) {
            Some(p) => prev.push(p),
            None => prev,
        }
    }
}

/// The first value that is present, else `default`.
pub open spec fn first_some<A>(a: Option<A>, b: Option<A>, default: A) -> A {
    match a {
        Some(x) => x,
        None => match b {
            Some(y) => y,
            None => default,
        },
    }
}

pub open spec fn raw_providers_view(o: Option<Vec<RawProviderConfig>>) -> Seq<RawProviderView> {
    match o {
        Some(v) => raw_views(v@),
        None => seq![],
    }
}

/// The configuration that the built-in providers, the user config `base` and
/// the project config `project` make together: providers merged in that
/// order; for the other settings the project's value, else the user's, else
/// "ollama", "" and `false`.
pub open spec fn merged_config_spec(base: RawConfig, project: RawConfig) -> ConfigView {
    ConfigView {
        providers: finalize_all(
            merge_spec(
                default_providers_spec() + raw_providers_view(base.providers) + raw_providers_view(
                    project.providers,
                ),
            ),
        ),
        default_provider: first_some(
            opt_view(project.default_provider),
            opt_view(base.default_provider),
            "ollama"@,
        ),
        default_model: first_some(opt_view(project.default_model), opt_view(base.default_model), ""@),
        auto_approve: first_some(project.auto_approve, base.auto_approve, false),
    }
}

/// The project config wins, then the user's: each setting of the merged
/// configuration is the project's value when it sets one, else the user's
/// when that sets one, else the default (`ollama`, no model, no
/// auto-approval).
pub proof fn lemma_project_then_user(base: RawConfig, project: RawConfig)
    ensures
        ({
            let m = merged_config_spec(base, project);
            &&& project.default_model matches Some(p) ==> m.default_model == p@
            &&& project.default_model is None ==> (base.default_model matches Some(b) ==> m.default_model == b@)
            &&& project.default_model is None && base.default_model is None ==> m.default_model == ""@
            &&& project.default_provider matches Some(p) ==> m.default_provider == p@
            &&& project.default_provider is None ==> (base.default_provider matches Some(b) ==> m.default_provider == b@)
            &&& project.default_provider is None && base.default_provider is None ==> m.default_provider == "ollama"@
            &&& project.auto_approve matches Some(p) ==> m.auto_approve == p
            &&& project.auto_approve is None ==> (base.auto_approve matches Some(b) ==> m.auto_approve == b)
            &&& project.auto_approve is None && base.auto_approve is None ==> !m.auto_approve
        }),
{
}

fn or_else_string(a: Option<String>, b: Option<String>, default: &str) -> (r: String)
    ensures
        r@ == first_some(opt_view(a), opt_view(b), default@),
{
    match a {
        Some(x) => x,
        None => match b {
            Some(y) => y,
            None => default.to_owned(),
        },
    }
}

/// The configuration for a working directory, from the user config `base`
/// and the directory's project config `project`, as read from their files
/// (a missing or unreadable file reads as a config with nothing set).
pub fn load_config_for_cwd(base: RawConfig, project: RawConfig) -> (c: LocalCodeConfig)
    ensures
        c@ == merged_config_spec(base, project),
{
    let ghost spec = merged_config_spec(base, project);
    let base_list = match base.providers {
        Some(v) => v,
        None => Vec::new(),
    };
    let project_list = match project.providers {
        Some(v) => v,
        None => Vec::new(),
    };
    let defaults = default_providers();
    let ghost l = default_providers_spec() + raw_views(base_list@) + raw_views(project_list@);
    let ghost d0 = raw_views(defaults@);
    let ghost d1 = raw_views(base_list@);
    let ghost d2 = raw_views(project_list@);
    let lists = vec![defaults, base_list, project_list];
    proof {
        let lv = lists_view(lists@);
        assert(lv =~= seq![d0, d1, d2]);
        let l1 = lv.drop_last().drop_last();
        assert(l1.drop_last() =~= Seq::<Seq<RawProviderView>>::empty());
        assert(concat_lists(l1.drop_last()) == Seq::<RawProviderView>::empty());
        assert(concat_lists(l1) =~= d0);
        assert(concat_lists(lv.drop_last()) =~= d0 + d1);
        assert(concat_lists(lv) =~= l);
        assert(l =~= default_providers_spec() + raw_providers_view(base.providers) + raw_providers_view(project.providers));
    }
    let mut merged = merge_providers(lists);
    let ghost mv = raw_views(merged@);
    let mut providers: Vec<ProviderConfig> = Vec::new();
    let mut k: usize = 0;
    let n = merged.len();
    proof {
        assert(mv.take(0) =~= Seq::<RawProviderView>::empty());
    }
    while k < n
        invariant
            n == mv.len(),
            k <= n,
            merged@.len() == n - k,
            forall|m: int| 0 <= m < n - k ==> #[trigger] merged@[m]@ == mv[k + m],
            provider_views(providers@) == finalize_all(mv.take(k as int)),
        decreases n - k,
    {
        let raw = merged.remove(0);
        let ghost before = providers@;
        proof {
            assert(raw@ == mv[k as int]);
            assert(mv.take(k + 1).drop_last() =~= mv.take(k as int));
            assert(mv.take(k + 1).last() == mv[k as int]);
        }
        match finalize_provider(raw) {
            Some(p) => {
                providers.push(p);
                proof {
                    assert(provider_views(providers@) =~= provider_views(before).push(p@));
                }
            },
            None => {},
        }
        k += 1;
    }
    proof {
        assert(mv.take(n as int) =~= mv);
    }
    let default_provider = or_else_string(project.default_provider, base.default_provider, "ollama");
    let default_model = or_else_string(project.default_model, base.default_model, "");
    let auto_approve = match project.auto_approve {
        Some(v) => v,
        None => match base.auto_approve {
            Some(v) => v,
            None => false,
        },
    };
    let c = LocalCodeConfig { providers, default_provider, default_model, auto_approve };
    assert(c@.providers == spec.providers);
    c
}

/// The user's home directory, by `dirs::home_dir` (its text, read lossily),
/// or `None` when it cannot be found. Nothing is stated of it: it comes from
/// the environment.
#[verifier::external_body]
pub(crate) fn home_dir() -> Option<String> {
    dirs::home_dir().map(|p| p.to_string_lossy().into_owned())
}

/// The directory of the user's configuration under the home directory
/// `home` (empty when there is none).
pub open spec fn config_dir_in(home: Seq<char>) -> Seq<char> {
    path_join(home, ".local-code"@)
}

/// The user's config file under the home directory `home`.
pub open spec fn config_path_in(home: Seq<char>) -> Seq<char> {
    path_join(config_dir_in(home), "config.json"@)
}

/// The home directory's text, or the empty path when there is none.
pub(crate) fn home_or_empty() -> String {
    match home_dir() {
        Some(h) => h,
        None => String::new(),
    }
}

/// The directory of the user's configuration.
pub fn config_dir() -> (r: String)
    ensures
        exists|home: Seq<char>| r@ == config_dir_in(home),
{
    let home = home_or_empty();
    let r = join_path(home.as_str(), ".local-code");
    assert(r@ == config_dir_in(home@));
    r
}

/// The user's config file.
pub fn config_path() -> (r: String)
    ensures
        exists|home: Seq<char>| r@ == config_path_in(home),
{
    let dir = config_dir();
    let r = join_path(dir.as_str(), "config.json");
    let ghost h = choose|home: Seq<char>| dir@ == config_dir_in(home);
    assert(r@ == config_path_in(h));
    r
}

/// The project config file of the working directory `cwd`.
pub fn project_config_path(cwd: &str) -> (r: String)
    ensures
        r@ == path_join(cwd@, ".local-code.json"@),
{
    join_path(cwd, ".local-code.json")
}

/// The user's config file.
pub fn get_config_path() -> (r: String)
    ensures
        exists|home: Seq<char>| r@ == config_path_in(home),
{
    config_path()
}

} // verus!
