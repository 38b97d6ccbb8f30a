//! The daemon's records and decisions: proxy instances and scopes as they are
//! shown in the UI and persisted, restoring instances on launch, the API
//! server's address, the choice of crypto backend, and default labels.
use vstd::prelude::*;

use crate::text::{
    join_commas, join_with_commas, lemma_split_commas_nonempty, lemma_split_join,
    lemma_split_pieces_plain, lemma_trim_idempotent, lemma_trim_within, split_commas,
    split_commas_trimmed, texts, trim,
};

verus! {

/// The latency shown for an instance whose latency has not been measured.
pub const UNKNOWN_LATENCY: i32 = -1;

/// A proxy instance as it is shown in the UI and stored in `instances.toml`.
pub struct InstanceData {
    pub label: String,
    pub remote: String,
    pub local: String,
    pub latency: i32,
    pub scope_host: String,
}

/// The mathematical value of an [`InstanceData`].
pub struct InstanceModel {
    pub label: Seq<char>,
    pub remote: Seq<char>,
    pub local: Seq<char>,
    pub latency: i32,
    pub scope_host: Seq<char>,
}

impl View for InstanceData {
    type V = InstanceModel;

    open spec fn view(&self) -> InstanceModel {
        InstanceModel {
            label: self.label@,
            remote: self.remote@,
            local: self.local@,
            latency: self.latency,
            scope_host: self.scope_host@,
        }
    }
}

/// The instance with its latency marked as not measured.
pub open spec fn with_unknown_latency(m: InstanceModel) -> InstanceModel {
    InstanceModel {
        label: m.label,
        remote: m.remote,
        local: m.local,
        latency: UNKNOWN_LATENCY,
        scope_host: m.scope_host,
    }
}

/// The values of a sequence of instances.
pub open spec fn instance_models(v: Seq<InstanceData>) -> Seq<InstanceModel> {
    v.map_values(|d: InstanceData| d@)
}

fn copy_instance(d: &InstanceData) -> (r: InstanceData)
    ensures
        r@ == d@,
{
    InstanceData {
        label: d.label.clone(),
        remote: d.remote.clone(),
        local: d.local.clone(),
        latency: d.latency,
        scope_host: d.scope_host.clone(),
    }
}

/// The instances as they are persisted: a latency is a property of a running
/// tunnel, so each one is stored as not measured; everything else is kept.
pub fn persisted_instances(instances: &Vec<InstanceData>) -> (r: Vec<InstanceData>)
    ensures
        instance_models(r@) == instance_models(instances@).map_values(
            |m: InstanceModel| with_unknown_latency(m),
        ),
        r@.len() == instances@.len(),
        forall|j: int|
            0 <= j < r@.len() ==> {
                &&& (#[trigger] r@[j]).label@ == instances@[j].label@
                &&& r@[j].remote@ == instances@[j].remote@
                &&& r@[j].local@ == instances@[j].local@
                &&& r@[j].scope_host@ == instances@[j].scope_host@
                &&& r@[j].latency == -1
            },
{
    let mut out: Vec<InstanceData> = Vec::new();
    let n = instances.len();
    let mut i: usize = 0;
    while i < n
        invariant
            n == instances@.len(),
            i <= n,
            out@.len() == i,
            forall|j: int|
                0 <= j < i ==> (#[trigger] out@[j])@ == with_unknown_latency(instances@[j]@),
        decreases n - i,
    {
        let mut d = copy_instance(&instances[i]);
        d.latency = UNKNOWN_LATENCY;
        out.push(d);
        i = i + 1;
    }
    assert(instance_models(out@) =~= instance_models(instances@).map_values(
        |m: InstanceModel| with_unknown_latency(m),
    ));
    out
}

/// What is written to `instances.toml`, given the outcome of serialising the
/// instances: nothing when serialising failed or gave no text.
pub fn instances_file_text(serialized: Option<String>) -> (r: Option<String>)
    ensures
        r == (match serialized {
            Some(t) => if t@.len() > 0 {
                Some(t)
            } else {
                None::<String>
            },
            None => None,
        }),
{
    match serialized {
        Some(t) => {
            if t.as_str().unicode_len() > 0 {
                Some(t)
            } else {
                None
            }
        },
        None => None,
    }
}

/// The UI row of an instance restored from `instances.toml`, whose tunnel now
/// listens on `bound_local`: its latency is not measured yet.
pub open spec fn restored_model(data: InstanceModel, bound_local: Seq<char>) -> InstanceModel {
    InstanceModel {
        label: data.label,
        remote: data.remote,
        local: bound_local,
        latency: UNKNOWN_LATENCY,
        scope_host: data.scope_host,
    }
}

/// The UI rows of the restored instances, in order: one for each stored
/// instance whose listener could be bound (`Some` with the bound address),
/// none for those whose listener could not.
pub open spec fn restored_models(
    entries: Seq<InstanceModel>,
    bound: Seq<Option<Seq<char>>>,
) -> Seq<InstanceModel>
    decreases entries.len(),
{
    if entries.len() == 0 || bound.len() == 0 {
        Seq::<InstanceModel>::empty()
    } else {
        let prev = restored_models(entries.drop_last(), bound.drop_last());
        match bound.last() {
            Some(local) => prev.push(restored_model(entries.last(), local)),
            None => prev,
        }
    }
}

/// The addresses in a sequence of optional strings.
pub open spec fn optional_texts(v: Seq<Option<String>>) -> Seq<Option<Seq<char>>> {
    v.map_values(
        |o: Option<String>|
            match o {
                Some(s) => Some(s@),
                None => None,
            },
    )
}

/// The UI row of a restored instance whose tunnel listens on `bound_local`.
pub fn restored_row(data: &InstanceData, bound_local: String) -> (r: InstanceData)
    ensures
        r@ == restored_model(data@, bound_local@),
        r.label@ == data.label@,
        r.remote@ == data.remote@,
        r.local@ == bound_local@,
        r.latency == -1,
        r.scope_host@ == data.scope_host@,
{
    InstanceData {
        label: data.label.clone(),
        remote: data.remote.clone(),
        local: bound_local,
        latency: UNKNOWN_LATENCY,
        scope_host: data.scope_host.clone(),
    }
}

/// The UI rows for restoring the stored instances `entries`, where `bound[i]`
/// is the address the listener of `entries[i]` was bound to, or `None` when
/// binding it failed.
pub fn restored_rows(entries: &Vec<InstanceData>, bound: &Vec<Option<String>>) -> (r: Vec<
    InstanceData,
>)
    requires
        entries@.len() == bound@.len(),
    ensures
        instance_models(r@) == restored_models(instance_models(entries@), optional_texts(bound@)),
        r@.len() == bound_count(optional_texts(bound@)),
{
    let mut rows: Vec<InstanceData> = Vec::new();
    let n = entries.len();
    let ghost es = instance_models(entries@);
    let ghost bs = optional_texts(bound@);
    let mut i: usize = 0;
    assert(es.take(0) =~= Seq::<InstanceModel>::empty());
    while i < n
        invariant
            n == entries@.len(),
            n == bound@.len(),
            es == instance_models(entries@),
            bs == optional_texts(bound@),
            i <= n,
            instance_models(rows@) == restored_models(es.take(i as int), bs.take(i as int)),
        decreases n - i,
    {
        let ghost before = instance_models(rows@);
        proof {
            assert(es.take(i + 1).drop_last() =~= es.take(i as int));
            assert(bs.take(i + 1).drop_last() =~= bs.take(i as int));
            assert(es.take(i + 1).last() == entries@[i as int]@);
            assert(bs.take(i + 1).last() == bs[i as int]);
        }
        match &bound[i] {
            Some(local) => {
                let row = restored_row(&entries[i], local.clone());
                rows.push(row);
                assert(instance_models(rows@) =~= before.push(row@));
            },
            None => {},
        }
        i = i + 1;
    }
    assert(es.take(n as int) =~= es);
    assert(bs.take(n as int) =~= bs);
    proof {
        lemma_restored_count(es, bs);
    }
    rows
}

/// Persisting an instance changes only its latency, which becomes -1; its
/// label, remote, local address and scope host are kept as they were.
pub proof fn lemma_persisting_changes_only_latency(m: InstanceModel)
    ensures
        with_unknown_latency(m).label == m.label,
        with_unknown_latency(m).remote == m.remote,
        with_unknown_latency(m).local == m.local,
        with_unknown_latency(m).scope_host == m.scope_host,
        with_unknown_latency(m).latency == -1,
{
}

/// A restored instance's row keeps its label, remote and scope host, shows
/// the address its listener was bound to, and has latency -1.
pub proof fn lemma_restored_row_fields(data: InstanceModel, bound_local: Seq<char>)
    ensures
        restored_model(data, bound_local).label == data.label,
        restored_model(data, bound_local).remote == data.remote,
        restored_model(data, bound_local).local == bound_local,
        restored_model(data, bound_local).scope_host == data.scope_host,
        restored_model(data, bound_local).latency == -1,
{
}

/// The number of bind outcomes that succeeded.
pub open spec fn bound_count(bound: Seq<Option<Seq<char>>>) -> nat
    decreases bound.len(),
{
    if bound.len() == 0 {
        0
    } else {
        bound_count(bound.drop_last()) + if bound.last() is Some {
            1nat
        } else {
            0nat
        }
    }
}

/// Restoring one stored instance gives no row when its listener failed to
/// bind, and otherwise one row with its label, remote and scope host, the
/// bound address and latency -1.
pub proof fn lemma_restore_one(data: InstanceModel, outcome: Option<Seq<char>>)
    ensures
        outcome is None ==> restored_models(seq![data], seq![outcome]).len() == 0,
        outcome matches Some(local) ==> restored_models(seq![data], seq![outcome]) == seq![
            InstanceModel {
                label: data.label,
                remote: data.remote,
                local: local,
                latency: -1i32,
                scope_host: data.scope_host,
            },
        ],
{
    let e = Seq::<InstanceModel>::empty();
    let b = Seq::<Option<Seq<char>>>::empty();
    assert(seq![data].drop_last() =~= e);
    assert(seq![outcome].drop_last() =~= b);
    assert(restored_models(e, b) == e);
    assert(seq![data].last() == data);
    assert(seq![outcome].last() == outcome);
    if let Some(local) = outcome {
        assert(e.push(restored_model(data, local)) =~= seq![restored_model(data, local)]);
    }
}

/// Restoring a list of stored instances restores each part on its own: the
/// rows for two lists one after the other are the rows for the first list
/// followed by the rows for the second.
pub proof fn lemma_restore_concat(
    e1: Seq<InstanceModel>,
    b1: Seq<Option<Seq<char>>>,
    e2: Seq<InstanceModel>,
    b2: Seq<Option<Seq<char>>>,
)
    requires
        e1.len() == b1.len(),
        e2.len() == b2.len(),
    ensures
        restored_models(e1 + e2, b1 + b2) == restored_models(e1, b1) + restored_models(e2, b2),
    decreases e2.len(),
{
    if e2.len() == 0 {
        assert(e1 + e2 =~= e1);
        assert(b1 + b2 =~= b1);
        assert(restored_models(e1, b1) + restored_models(e2, b2) =~= restored_models(e1, b1));
    } else {
        lemma_restore_concat(e1, b1, e2.drop_last(), b2.drop_last());
        assert((e1 + e2).drop_last() =~= e1 + e2.drop_last());
        assert((b1 + b2).drop_last() =~= b1 + b2.drop_last());
        assert((e1 + e2).last() == e2.last());
        assert((b1 + b2).last() == b2.last());
        let r1 = restored_models(e1, b1);
        let r2 = restored_models(e2.drop_last(), b2.drop_last());
        match b2.last() {
            Some(l) => {
                assert((r1 + r2).push(restored_model(e2.last(), l)) =~= r1 + r2.push(
                    restored_model(e2.last(), l),
                ));
            },
            None => {},
        }
    }
}

/// A listener that failed to bind removes its own row and no other: the rows
/// are those for the stored instances without that one.
pub proof fn lemma_failed_bind_removes_only_its_row(
    entries: Seq<InstanceModel>,
    bound: Seq<Option<Seq<char>>>,
    i: int,
)
    requires
        entries.len() == bound.len(),
        0 <= i < bound.len(),
        bound[i] is None,
    ensures
        restored_models(entries, bound) == restored_models(entries.remove(i), bound.remove(i)),
{
    let e1 = entries.take(i);
    let b1 = bound.take(i);
    let e2 = entries.skip(i + 1);
    let b2 = bound.skip(i + 1);
    let em = seq![entries[i]];
    let bm = seq![bound[i]];
    assert(entries =~= e1 + em + e2);
    assert(bound =~= b1 + bm + b2);
    assert(entries.remove(i) =~= e1 + e2);
    assert(bound.remove(i) =~= b1 + b2);
    lemma_restore_concat(e1 + em, b1 + bm, e2, b2);
    lemma_restore_concat(e1, b1, em, bm);
    lemma_restore_concat(e1, b1, e2, b2);
    lemma_restore_one(entries[i], bound[i]);
    assert(restored_models(e1, b1) + restored_models(em, bm) =~= restored_models(e1, b1));
}

/// There is one restored row for each listener that bound.
pub proof fn lemma_restored_count(entries: Seq<InstanceModel>, bound: Seq<Option<Seq<char>>>)
    requires
        entries.len() == bound.len(),
    ensures
        restored_models(entries, bound).len() == bound_count(bound),
    decreases bound.len(),
{
    if bound.len() > 0 {
        lemma_restored_count(entries.drop_last(), bound.drop_last());
    }
}

/// Persisting instances that were already persisted changes nothing.
pub proof fn lemma_persisting_idempotent(instances: Seq<InstanceModel>)
    ensures
        instances.map_values(|m: InstanceModel| with_unknown_latency(m)).map_values(
            |m: InstanceModel| with_unknown_latency(m),
        ) == instances.map_values(|m: InstanceModel| with_unknown_latency(m)),
{
    let once = instances.map_values(|m: InstanceModel| with_unknown_latency(m));
    assert(once.map_values(|m: InstanceModel| with_unknown_latency(m)) =~= once);
}

/// When every stored instance's listener binds, whatever the address, each
/// stored instance gives one row, in order, that keeps its label, remote and
/// scope host, shows the bound address, and has its latency not measured.
pub proof fn lemma_restore_all_bound(entries: Seq<InstanceModel>, bound: Seq<Option<Seq<char>>>)
    requires
        entries.len() == bound.len(),
        forall|i: int| 0 <= i < bound.len() ==> (#[trigger] bound[i]) is Some,
    ensures
        restored_models(entries, bound).len() == entries.len(),
        forall|i: int|
            0 <= i < entries.len() ==> #[trigger] restored_models(entries, bound)[i]
                == restored_model(entries[i], bound[i]->0),
    decreases entries.len(),
{
    if entries.len() > 0 {
        let e0 = entries.drop_last();
        let b0 = bound.drop_last();
        assert forall|i: int| 0 <= i < b0.len() implies (#[trigger] b0[i]) is Some by {
            assert(b0[i] == bound[i]);
        }
        lemma_restore_all_bound(e0, b0);
        assert(bound[bound.len() - 1] is Some);
        let r = restored_models(entries, bound);
        assert forall|i: int| 0 <= i < entries.len() implies #[trigger] r[i] == restored_model(
            entries[i],
            bound[i]->0,
        ) by {
            if i < entries.len() - 1 {
                assert(e0[i] == entries[i]);
                assert(b0[i] == bound[i]);
            }
        }
    }
}

/// The outcome of binding every stored instance to the address it was stored with.
pub open spec fn bound_as_stored(entries: Seq<InstanceModel>) -> Seq<Option<Seq<char>>> {
    entries.map_values(|m: InstanceModel| Some(m.local))
}

/// Restoring persisted instances, when every listener binds to the address it
/// was stored with, shows exactly the rows that were persisted.
pub proof fn lemma_restore_persisted(instances: Seq<InstanceModel>)
    ensures
        restored_models(
            instances.map_values(|m: InstanceModel| with_unknown_latency(m)),
            bound_as_stored(instances.map_values(|m: InstanceModel| with_unknown_latency(m))),
        ) == instances.map_values(|m: InstanceModel| with_unknown_latency(m)),
    decreases instances.len(),
{
    let p = instances.map_values(|m: InstanceModel| with_unknown_latency(m));
    if instances.len() > 0 {
        let init = instances.drop_last();
        lemma_restore_persisted(init);
        let pi = init.map_values(|m: InstanceModel| with_unknown_latency(m));
        assert(p.drop_last() =~= pi);
        assert(bound_as_stored(p).drop_last() =~= bound_as_stored(pi));
        assert(restored_model(p.last(), p.last().local) == p.last());
        assert(restored_models(p, bound_as_stored(p)) =~= p);
    } else {
        assert(restored_models(p, bound_as_stored(p)) =~= p);
    }
}

/// A scope (a site allowed to drive the daemon) as stored in `scopes.toml`;
/// `settings` is its settings object as JSON text.
pub struct ScopeData {
    pub host: String,
    pub name: String,
    pub state: String,
    pub features: Vec<String>,
    pub settings: String,
}

/// A scope as it is shown in the UI, its features as one comma-separated text.
pub struct ScopeRow {
    pub host: String,
    pub name: String,
    pub state: String,
    pub features: String,
    pub settings: String,
}

/// The mathematical value of a [`ScopeData`].
pub struct ScopeModel {
    pub host: Seq<char>,
    pub name: Seq<char>,
    pub state: Seq<char>,
    pub features: Seq<Seq<char>>,
    pub settings: Seq<char>,
}

/// The mathematical value of a [`ScopeRow`].
pub struct ScopeRowModel {
    pub host: Seq<char>,
    pub name: Seq<char>,
    pub state: Seq<char>,
    pub features: Seq<char>,
    pub settings: Seq<char>,
}

impl View for ScopeData {
    type V = ScopeModel;

    open spec fn view(&self) -> ScopeModel {
        ScopeModel {
            host: self.host@,
            name: self.name@,
            state: self.state@,
            features: texts(self.features@),
            settings: self.settings@,
        }
    }
}

impl View for ScopeRow {
    type V = ScopeRowModel;

    open spec fn view(&self) -> ScopeRowModel {
        ScopeRowModel {
            host: self.host@,
            name: self.name@,
            state: self.state@,
            features: self.features@,
            settings: self.settings@,
        }
    }
}

/// The features written in a comma-separated text: the pieces between the
/// commas, each without surrounding whitespace.
pub open spec fn parse_features(text: Seq<char>) -> Seq<Seq<char>> {
    split_commas(text).map_values(|p: Seq<char>| trim(p))
}

/// A feature list that survives being shown and read back: at least one
/// feature, none holding a comma or surrounding whitespace.
pub open spec fn well_formed_features(features: Seq<Seq<char>>) -> bool {
    &&& features.len() >= 1
    &&& forall|i: int|
        0 <= i < features.len() ==> !(#[trigger] features[i]).contains(',') && trim(features[i])
            == features[i]
}

/// The UI row that shows a scope.
pub open spec fn spec_scope_row(s: ScopeModel) -> ScopeRowModel {
    ScopeRowModel {
        host: s.host,
        name: s.name,
        state: s.state,
        features: join_commas(s.features),
        settings: s.settings,
    }
}

/// The scope that a UI row describes.
pub open spec fn spec_scope_from_row(r: ScopeRowModel) -> ScopeModel {
    ScopeModel {
        host: r.host,
        name: r.name,
        state: r.state,
        features: parse_features(r.features),
        settings: r.settings,
    }
}

/// The features of a scope as the UI shows them: comma-separated.
pub fn features_to_text(features: &Vec<String>) -> (r: String)
    ensures
        r@ == join_commas(texts(features@)),
{
    join_with_commas(features)
}

/// The features written in the UI's comma-separated text: split at each
/// comma and trimmed, empty pieces kept.
pub fn features_from_text(text: &str) -> (r: Vec<String>)
    ensures
        texts(r@) == parse_features(text@),
{
    split_commas_trimmed(text)
}

/// The UI row that shows a loaded scope.
pub fn scope_row(scope: &ScopeData) -> (r: ScopeRow)
    ensures
        r@ == spec_scope_row(scope@),
        r.host@ == scope.host@,
        r.name@ == scope.name@,
        r.state@ == scope.state@,
        r.settings@ == scope.settings@,
        r.features@ == join_commas(texts(scope.features@)),
{
    ScopeRow {
        host: scope.host.clone(),
        name: scope.name.clone(),
        state: scope.state.clone(),
        features: features_to_text(&scope.features),
        settings: scope.settings.clone(),
    }
}

/// The scope to persist for a UI row.
pub fn scope_from_row(row: &ScopeRow) -> (r: ScopeData)
    ensures
        r@ == spec_scope_from_row(row@),
        r.host@ == row.host@,
        r.name@ == row.name@,
        r.state@ == row.state@,
        r.settings@ == row.settings@,
        texts(r.features@) == split_commas(row.features@).map_values(|p: Seq<char>| trim(p)),
{
    ScopeData {
        host: row.host.clone(),
        name: row.name.clone(),
        state: row.state.clone(),
        features: features_from_text(row.features.as_str()),
        settings: row.settings.clone(),
    }
}

/// The UI rows that show a list of loaded scopes, one per scope, in order.
pub fn scope_rows(scopes: &Vec<ScopeData>) -> (r: Vec<ScopeRow>)
    ensures
        r@.len() == scopes@.len(),
        forall|i: int| 0 <= i < r@.len() ==> (#[trigger] r@[i])@ == spec_scope_row(scopes@[i]@),
        forall|i: int|
            0 <= i < r@.len() ==> (#[trigger] r@[i]).host@ == scopes@[i].host@ && r@[i].name@
                == scopes@[i].name@ && r@[i].state@ == scopes@[i].state@ && r@[i].settings@
                == scopes@[i].settings@,
{
    let mut out: Vec<ScopeRow> = Vec::new();
    let n = scopes.len();
    let mut i: usize = 0;
    while i < n
        invariant
            n == scopes@.len(),
            i <= n,
            out@.len() == i,
            forall|j: int| 0 <= j < i ==> (#[trigger] out@[j])@ == spec_scope_row(scopes@[j]@),
        decreases n - i,
    {
        out.push(scope_row(&scopes[i]));
        i = i + 1;
    }
    out
}

/// The scopes to persist for the UI rows, one per row, in order.
pub fn scopes_from_rows(rows: &Vec<ScopeRow>) -> (r: Vec<ScopeData>)
    ensures
        r@.len() == rows@.len(),
        forall|i: int|
            0 <= i < r@.len() ==> (#[trigger] r@[i])@ == spec_scope_from_row(rows@[i]@),
        forall|i: int|
            0 <= i < r@.len() ==> (#[trigger] r@[i]).host@ == rows@[i].host@ && r@[i].name@
                == rows@[i].name@ && r@[i].state@ == rows@[i].state@ && r@[i].settings@
                == rows@[i].settings@,
{
    let mut out: Vec<ScopeData> = Vec::new();
    let n = rows.len();
    let mut i: usize = 0;
    while i < n
        invariant
            n == rows@.len(),
            i <= n,
            out@.len() == i,
            forall|j: int|
                0 <= j < i ==> (#[trigger] out@[j])@ == spec_scope_from_row(rows@[j]@),
        decreases n - i,
    {
        out.push(scope_from_row(&rows[i]));
        i = i + 1;
    }
    out
}

/// The row that a UI row becomes once it is saved and loaded again.
pub open spec fn saved_and_loaded(r: ScopeRowModel) -> ScopeRowModel {
    spec_scope_row(spec_scope_from_row(r))
}

/// Saving the UI's scope rows and loading them again gives as many rows, in
/// order, each with the same host, name, state and settings, and with its
/// features text normalised (split at commas, trimmed, joined with commas);
/// saving and loading once more changes nothing.
pub proof fn lemma_rows_survive_save_and_load(rows: Seq<ScopeRowModel>)
    ensures
        rows.map_values(|r: ScopeRowModel| saved_and_loaded(r)).len() == rows.len(),
        forall|i: int|
            0 <= i < rows.len() ==> rows.map_values(|r: ScopeRowModel| saved_and_loaded(r))[i]
                == #[trigger] saved_and_loaded(rows[i]),
        forall|i: int|
            0 <= i < rows.len() ==> {
                &&& (#[trigger] saved_and_loaded(rows[i])).host == rows[i].host
                &&& saved_and_loaded(rows[i]).name == rows[i].name
                &&& saved_and_loaded(rows[i]).state == rows[i].state
                &&& saved_and_loaded(rows[i]).settings == rows[i].settings
                &&& saved_and_loaded(rows[i]).features == join_commas(
                    parse_features(rows[i].features),
                )
            },
        rows.map_values(|r: ScopeRowModel| saved_and_loaded(r)).map_values(
            |r: ScopeRowModel| saved_and_loaded(r),
        ) == rows.map_values(|r: ScopeRowModel| saved_and_loaded(r)),
{
    let once = rows.map_values(|r: ScopeRowModel| saved_and_loaded(r));
    assert forall|i: int| 0 <= i < once.len() implies #[trigger] saved_and_loaded(once[i])
        == once[i] by {
        lemma_features_text_stable(rows[i].features);
    }
    assert(once.map_values(|r: ScopeRowModel| saved_and_loaded(r)) =~= once);
}

/// Showing a scope keeps its host, name, state and settings in the fields of
/// the same name and writes its features joined with commas; reading a row
/// back keeps the same four fields and splits the features text at commas.
pub proof fn lemma_scope_fields_kept(s: ScopeModel, r: ScopeRowModel)
    ensures
        spec_scope_row(s).host == s.host,
        spec_scope_row(s).name == s.name,
        spec_scope_row(s).state == s.state,
        spec_scope_row(s).settings == s.settings,
        spec_scope_row(s).features == join_commas(s.features),
        spec_scope_from_row(r).host == r.host,
        spec_scope_from_row(r).name == r.name,
        spec_scope_from_row(r).state == r.state,
        spec_scope_from_row(r).settings == r.settings,
        spec_scope_from_row(r).features == split_commas(r.features).map_values(
            |p: Seq<char>| trim(p),
        ),
{
}

/// Showing a scope and saving it back gives the scope that was loaded, when
/// its feature list is well formed.
pub proof fn lemma_scope_round_trip(s: ScopeModel)
    requires
        well_formed_features(s.features),
    ensures
        spec_scope_from_row(spec_scope_row(s)) == s,
{
    lemma_split_join(s.features);
    assert(parse_features(join_commas(s.features)) =~= s.features);
}

/// Reading features from text gives a well-formed list, so saving what was
/// read and reading it again gives the same features.
pub proof fn lemma_features_text_stable(text: Seq<char>)
    ensures
        well_formed_features(parse_features(text)),
        parse_features(join_commas(parse_features(text))) == parse_features(text),
{
    let pieces = split_commas(text);
    let fs = parse_features(text);
    lemma_split_commas_nonempty(text);
    lemma_split_pieces_plain(text);
    assert forall|i: int| 0 <= i < fs.len() implies !(#[trigger] fs[i]).contains(',') && trim(
        fs[i],
    ) == fs[i] by {
        lemma_trim_within(pieces[i], ',');
        lemma_trim_idempotent(pieces[i]);
    }
    lemma_split_join(fs);
    assert(parse_features(join_commas(fs)) =~= fs) by {
        assert forall|i: int| 0 <= i < fs.len() implies trim(
            split_commas(join_commas(fs))[i],
        ) == fs[i] by {
            lemma_trim_idempotent(pieces[i]);
        }
    }
}

/// The address the API server listens on: port 3307 on the loopback
/// interface, or any free loopback port once binding 3307 has failed.
pub fn api_bind_address(port_3307_failed: bool) -> (r: &'static str)
    ensures
        r@ == (if port_3307_failed {
            "127.0.0.1:0"@
        } else {
            "127.0.0.1:3307"@
        }),
{
    if port_3307_failed {
        "127.0.0.1:0"
    } else {
        "127.0.0.1:3307"
    }
}

/// A process-wide crypto backend of the TLS stack.
#[derive(Clone, Copy, Debug, PartialEq, Eq, Structural)]
pub enum CryptoBackend {
    /// AWS Libcrypto, the preferred one.
    AwsLc,
    /// `ring`, the fallback.
    Ring,
}

/// The next thing to do while choosing the crypto backend at start-up.
#[derive(Clone, Copy, Debug, PartialEq, Eq, Structural)]
pub enum CryptoStep {
    /// Try to install this backend as the process default.
    Install(CryptoBackend),
    /// This backend is installed; go on with it.
    Use(CryptoBackend),
    /// No backend could be installed: the process exits with status 1.
    Exit,
}

/// The first step: try AWS Libcrypto.
pub fn first_crypto_step() -> (r: CryptoStep)
    ensures
        r == CryptoStep::Install(CryptoBackend::AwsLc),
{
    CryptoStep::Install(CryptoBackend::AwsLc)
}

/// The step after trying to install `tried`: use it when it installed; fall
/// back from AWS Libcrypto to `ring`; exit when `ring` did not install either.
pub fn next_crypto_step(tried: CryptoBackend, installed: bool) -> (r: CryptoStep)
    ensures
        installed ==> r == CryptoStep::Use(tried),
        !installed && tried == CryptoBackend::AwsLc ==> r == CryptoStep::Install(
            CryptoBackend::Ring,
        ),
        !installed && tried == CryptoBackend::Ring ==> r == CryptoStep::Exit,
{
    if installed {
        CryptoStep::Use(tried)
    } else {
        match tried {
            CryptoBackend::AwsLc => CryptoStep::Install(CryptoBackend::Ring),
            CryptoBackend::Ring => CryptoStep::Exit,
        }
    }
}

/// The lower-case hexadecimal digits.
pub open spec fn hex_digit_chars() -> Seq<char> {
    seq!['0', '1', '2', '3', '4', '5', '6', '7', '8', '9', 'a', 'b', 'c', 'd', 'e', 'f']
}

/// `n` in lower-case hexadecimal, without leading zeros ("0" for zero).
pub open spec fn lower_hex(n: nat) -> Seq<char>
    decreases n,
{
    if n < 16 {
        seq![hex_digit_chars()[n as int]]
    } else {
        lower_hex(n / 16) + seq![hex_digit_chars()[(n % 16) as int]]
    }
}

/// `s` padded on the left with zeros to at least `width` characters.
pub open spec fn zero_padded(s: Seq<char>, width: nat) -> Seq<char> {
    if s.len() < width {
        Seq::new((width - s.len()) as nat, |i: int| '0') + s
    } else {
        s
    }
}

/// The default label of an instance drawn with the number `n`: `inst-`
/// followed by `n` in lower-case hexadecimal, zero-padded to six digits.
pub open spec fn spec_label(n: u32) -> Seq<char> {
    seq!['i', 'n', 's', 't', '-'] + zero_padded(lower_hex(n as nat), 6)
}

/// Whether `c` is one of the digits `0`-`9` or `a`-`f` (by code point).
pub open spec fn is_lower_hex_digit(c: char) -> bool {
    (48 <= c as u32 <= 57) || (97 <= c as u32 <= 102)
}

/// The value of a lower-case hexadecimal digit: `0`-`9` are 0 to 9 and
/// `a`-`f` are 10 to 15.
pub open spec fn hex_digit_value(c: char) -> nat {
    if 48 <= c as u32 <= 57 {
        (c as u32 - 48) as nat
    } else {
        (c as u32 - 87) as nat
    }
}

/// The number that a text of hexadecimal digits stands for, read in base 16.
pub open spec fn read_hex(s: Seq<char>) -> nat
    decreases s.len(),
{
    if s.len() == 0 {
        0
    } else {
        16 * read_hex(s.drop_last()) + hex_digit_value(s.last())
    }
}

proof fn lemma_digit_chars()
    ensures
        forall|d: int|
            0 <= d < 16 ==> is_lower_hex_digit(#[trigger] hex_digit_chars()[d])
                && hex_digit_value(hex_digit_chars()[d]) == d,
{
    assert forall|d: int| 0 <= d < 16 implies is_lower_hex_digit(#[trigger] hex_digit_chars()[d])
        && hex_digit_value(hex_digit_chars()[d]) == d by {
        let h = hex_digit_chars();
        assert(h[0] == '0' && h[1] == '1' && h[2] == '2' && h[3] == '3' && h[4] == '4');
        assert(h[5] == '5' && h[6] == '6' && h[7] == '7' && h[8] == '8' && h[9] == '9');
        assert(h[10] == 'a' && h[11] == 'b' && h[12] == 'c' && h[13] == 'd' && h[14] == 'e');
        assert(h[15] == 'f');
    }
}

proof fn lemma_read_lower_hex(n: nat)
    ensures
        read_hex(lower_hex(n)) == n,
        forall|i: int| 0 <= i < lower_hex(n).len() ==> is_lower_hex_digit(#[trigger] lower_hex(n)[i]),
        lower_hex(n).len() >= 1,
        n >= 16 ==> lower_hex(n)[0] != '0',
    decreases n,
{
    lemma_digit_chars();
    if n < 16 {
        let s = lower_hex(n);
        assert(s.drop_last() =~= Seq::<char>::empty());
        assert(read_hex(Seq::<char>::empty()) == 0);
        assert(s.last() == hex_digit_chars()[n as int]);
    } else {
        lemma_read_lower_hex(n / 16);
        let p = lower_hex(n / 16);
        let s = lower_hex(n);
        assert(s.drop_last() =~= p);
        assert(s.last() == hex_digit_chars()[(n % 16) as int]);
        assert(n == 16 * (n / 16) + n % 16);
        assert(s[0] == p[0]);
        if n / 16 < 16 {
            assert(n / 16 >= 1);
            assert(p[0] == hex_digit_chars()[(n / 16) as int]);
            assert(hex_digit_value(p[0]) == n / 16);
        }
    }
}

proof fn lemma_read_zeros(k: nat)
    ensures
        read_hex(Seq::new(k, |i: int| '0')) == 0,
    decreases k,
{
    if k > 0 {
        lemma_read_zeros((k - 1) as nat);
        assert(Seq::new(k, |i: int| '0').drop_last() =~= Seq::new((k - 1) as nat, |i: int| '0'));
    }
}

proof fn lemma_read_leading_zeros(k: nat, s: Seq<char>)
    ensures
        read_hex(Seq::new(k, |i: int| '0') + s) == read_hex(s),
    decreases s.len(),
{
    let z = Seq::new(k, |i: int| '0');
    if s.len() == 0 {
        assert(z + s =~= z);
        lemma_read_zeros(k);
    } else {
        lemma_read_leading_zeros(k, s.drop_last());
        assert((z + s).drop_last() =~= z + s.drop_last());
        assert((z + s).last() == s.last());
    }
}

/// A default label is `inst-` followed by at least six and at most eight
/// lower-case hexadecimal digits, with no more leading zeros than padding to
/// six needs, and reading those digits in base 16 gives back the number.
pub proof fn lemma_label_reads_back(n: u32)
    ensures
        spec_label(n).take(5) == seq!['i', 'n', 's', 't', '-'],
        11 <= spec_label(n).len() <= 13,
        forall|i: int|
            5 <= i < spec_label(n).len() ==> is_lower_hex_digit(#[trigger] spec_label(n)[i]),
        read_hex(spec_label(n).skip(5)) == n,
        spec_label(n).len() > 11 ==> spec_label(n)[5] != '0',
{
    let h = lower_hex(n as nat);
    lemma_read_lower_hex(n as nat);
    assert(pow16(8) == 0x1_0000_0000) by {
        reveal_with_fuel(pow16, 9);
    }
    lemma_lower_hex_len_small(n as nat, 8);
    let l = spec_label(n);
    assert(l.take(5) =~= seq!['i', 'n', 's', 't', '-']);
    assert(l.skip(5) =~= zero_padded(h, 6));
    if h.len() < 6 {
        let z = Seq::new((6 - h.len()) as nat, |i: int| '0');
        lemma_read_leading_zeros((6 - h.len()) as nat, h);
        assert forall|i: int| 5 <= i < l.len() implies is_lower_hex_digit(#[trigger] l[i]) by {
            if i < 5 + z.len() {
                assert(l[i] == '0');
            } else {
                assert(l[i] == h[i - 5 - z.len()]);
            }
        }
    } else {
        assert forall|i: int| 5 <= i < l.len() implies is_lower_hex_digit(#[trigger] l[i]) by {
            assert(l[i] == h[i - 5]);
        }
        if h.len() > 6 {
            assert(n as nat >= 16) by {
                if (n as nat) < 16 {
                    assert(h.len() == 1);
                }
            }
            assert(l[5] == h[0]);
        }
    }
}

fn lower_hex_len(n: u32) -> (r: usize)
    ensures
        r == lower_hex(n as nat).len(),
        r <= 8,
    decreases n,
{
    if n < 16 {
        1
    } else {
        let k = lower_hex_len(n / 16);
        assert(n / 16 < 0x1000_0000);
        assert(k <= 7) by {
            reveal_with_fuel(pow16, 8);
            assert(pow16(7) == 0x1000_0000);
            lemma_lower_hex_len_small((n / 16) as nat, 7);
        }
        k + 1
    }
}

proof fn lemma_lower_hex_len_small(n: nat, k: nat)
    requires
        n < pow16(k),
        k >= 1,
    ensures
        lower_hex(n).len() <= k,
    decreases n,
{
    if n >= 16 {
        assert(k >= 2) by {
            if k == 1 {
                assert(pow16(1) == 16 * pow16(0));
            }
        }
        assert(pow16(k) == 16 * pow16((k - 1) as nat));
        assert(n / 16 < pow16((k - 1) as nat));
        lemma_lower_hex_len_small(n / 16, (k - 1) as nat);
    }
}

spec fn pow16(k: nat) -> nat
    decreases k,
{
    if k == 0 {
        1
    } else {
        16 * pow16((k - 1) as nat)
    }
}

fn append_lower_hex(out: &mut String, n: u32)
    ensures
        final(out)@ == old(out)@ + lower_hex(n as nat),
    decreases n,
{
    if n >= 16 {
        append_lower_hex(out, n / 16);
    }
    let d: usize = (n % 16) as usize;
    let digits = "0123456789abcdef";
    proof {
        reveal_strlit("0123456789abcdef");
        assert(digits@ =~= hex_digit_chars());
    }
    let piece = digits.substring_char(d, d + 1);
    out.append(piece);
    proof {
        assert(piece@ =~= seq![hex_digit_chars()[d as int]]);
        assert(out@ =~= old(out)@ + lower_hex(n as nat));
    }
}

/// The default label for the number `n`: `inst-` and `n` as six or more
/// lower-case hexadecimal digits.
pub fn label_from_number(n: u32) -> (r: String)
    ensures
        r@ == spec_label(n),
        r@.take(5) == seq!['i', 'n', 's', 't', '-'],
        11 <= r@.len() <= 13,
        forall|i: int| 5 <= i < r@.len() ==> is_lower_hex_digit(#[trigger] r@[i]),
        read_hex(r@.skip(5)) == n,
{
    proof {
        lemma_label_reads_back(n);
    }
    let prefix = "inst-";
    proof {
        reveal_strlit("inst-");
    }
    let mut out = String::from_str(prefix);
    let len = lower_hex_len(n);
    let zero = "0";
    proof {
        reveal_strlit("0");
    }
    let ghost hex = lower_hex(n as nat);
    let mut k: usize = len;
    while k < 6
        invariant
            len == hex.len(),
            len <= k <= (if len < 6 {
                6
            } else {
                len
            }),
            zero@ == seq!['0'],
            out@ == seq!['i', 'n', 's', 't', '-'] + Seq::new(
                (k - len) as nat,
                |i: int| '0',
            ),
        decreases 6 - k,
    {
        out.append(zero);
        proof {
            assert(out@ =~= seq!['i', 'n', 's', 't', '-'] + Seq::new(
                (k + 1 - len) as nat,
                |i: int| '0',
            ));
        }
        k = k + 1;
    }
    append_lower_hex(&mut out, n);
    proof {
        assert(prefix@ =~= seq!['i', 'n', 's', 't', '-']);
        if len < 6 {
            assert(out@ =~= spec_label(n));
        } else {
            assert(Seq::new((k - len) as nat, |i: int| '0') =~= Seq::<char>::empty());
            assert(out@ =~= spec_label(n));
        }
    }
    out
}

/// Draws a number with `rand::random::<u32>()`, from the thread-local
/// generator: any `u32` can come back, and nothing is stated of which.  That
/// generator panics only on failures of the machine: when the operating
/// system cannot seed it or reseed it periodically, or when registering its
/// fork handler fails.
#[verifier::external_body]
fn random_u32() -> u32 {
    rand::random::<u32>()
}

/// A fresh default label for a new instance: `inst-` and a random number as
/// six or more lower-case hexadecimal digits.
pub fn default_label() -> (r: String)
    ensures
        exists|n: u32| r@ == spec_label(n),
        read_hex(r@.skip(5)) <= u32::MAX,
        r@.take(5) == seq!['i', 'n', 's', 't', '-'],
        11 <= r@.len() <= 13,
        forall|i: int| 5 <= i < r@.len() ==> is_lower_hex_digit(#[trigger] r@[i]),
{
    let n = random_u32();
    label_from_number(n)
}

} // verus!
