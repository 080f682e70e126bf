//! The client's copy of the server's workspace: which modules exist, their
//! parameters, window geometry, indications and terminals, and which outputs
//! feed which inputs. The server sends the whole workspace once and then
//! one update at a time.

use std::collections::{BTreeMap, HashMap};
use vstd::prelude::*;
use vstd::laws_cmp::obeys_cmp;
use crate::protocol::Terminal;

verus! {

broadcast use {
    vstd::std_specs::hash::group_hash_axioms,
    vstd::std_specs::btree::group_btree_axioms,
    vstd::laws_cmp::group_laws_cmp,
};

/// Identifies a module.
pub type ModuleId = usize;

/// A module's input terminal: the module and the terminal's index.
pub type InputId = (ModuleId, usize);

/// A module's output terminal: the module and the terminal's index.
pub type OutputId = (ModuleId, usize);

/// The whole workspace as the server sends it, parameterised by the types
/// of module parameters `P`, window geometry `G` and indications `I`.
pub struct WorkspaceState<P, G, I> {
    pub modules: Vec<(ModuleId, P)>,
    pub geometry: Vec<(ModuleId, G)>,
    pub indications: Vec<(ModuleId, I)>,
    pub connections: Vec<(InputId, OutputId)>,
    pub inputs: Vec<(ModuleId, Vec<Terminal>)>,
    pub outputs: Vec<(ModuleId, Vec<Terminal>)>,
    pub channels: usize,
    pub sample_rate: usize,
    pub samples_per_tick: usize,
}

/// One change to the workspace, as the server announces it.
pub enum ServerUpdate<P, G, I> {
    CreateModule {
        id: ModuleId,
        params: P,
        geometry: G,
        indication: I,
        inputs: Vec<Terminal>,
        outputs: Vec<Terminal>,
    },
    UpdateModuleParams(ModuleId, P),
    UpdateWindowGeometry(ModuleId, G),
    UpdateModuleIndication(ModuleId, I),
    DeleteModule(ModuleId),
    CreateConnection(InputId, OutputId),
    DeleteConnection(InputId),
}

/// The client's workspace, keyed for lookup.
pub struct State<P, G, I> {
    pub modules: BTreeMap<ModuleId, P>,
    pub geometry: HashMap<ModuleId, G>,
    pub connections: BTreeMap<InputId, OutputId>,
    pub indications: HashMap<ModuleId, I>,
    pub inputs: HashMap<ModuleId, Vec<Terminal>>,
    pub outputs: HashMap<ModuleId, Vec<Terminal>>,
    pub channels: usize,
    pub sample_rate: usize,
    pub samples_per_tick: usize,
}

/// The mathematical content of a `State`.
pub struct StateModel<P, G, I> {
    pub modules: Map<ModuleId, P>,
    pub geometry: Map<ModuleId, G>,
    pub connections: Map<InputId, OutputId>,
    pub indications: Map<ModuleId, I>,
    pub inputs: Map<ModuleId, Vec<Terminal>>,
    pub outputs: Map<ModuleId, Vec<Terminal>>,
    pub channels: usize,
    pub sample_rate: usize,
    pub samples_per_tick: usize,
}

impl<P, G, I> View for State<P, G, I> {
    type V = StateModel<P, G, I>;

    open spec fn view(&self) -> StateModel<P, G, I> {
        StateModel {
            modules: self.modules@,
            geometry: self.geometry@,
            connections: self.connections@,
            indications: self.indications@,
            inputs: self.inputs@,
            outputs: self.outputs@,
            channels: self.channels,
            sample_rate: self.sample_rate,
            samples_per_tick: self.samples_per_tick,
        }
    }
}

/// The map a list of pairs collects into: a key maps to the value of its
/// last pair.
pub open spec fn pairs_map<K, V>(s: Seq<(K, V)>) -> Map<K, V>
    decreases s.len(),
{
    if s.len() == 0 {
        Map::empty()
    } else {
        pairs_map(s.drop_last()).insert(s.last().0, s.last().1)
    }
}

/// `m` is what the list `s` collects into, read off the list itself: its
/// keys are exactly those that occur in `s`, and a key maps to the value of
/// its last pair.
pub open spec fn collects<K, V>(m: Map<K, V>, s: Seq<(K, V)>) -> bool {
    &&& forall|k: K| #[trigger] m.contains_key(k) <==> exists|i: int| 0 <= i < s.len() && #[trigger] s[i].0 == k
    &&& forall|i: int|
        #![trigger s[i]]
        0 <= i < s.len() && (forall|j: int| i < j < s.len() ==> #[trigger] s[j].0 != s[i].0) ==> m[s[i].0] == s[i].1
}

/// `after` agrees with `before` on every key other than `k`.
pub open spec fn same_except<K, V>(before: Map<K, V>, after: Map<K, V>, k: K) -> bool {
    forall|j: K|
        j != k ==> (#[trigger] after.contains_key(j) == before.contains_key(j)) && (before.contains_key(j)
            ==> after[j] == before[j])
}

/// The workspace a full server snapshot describes.
pub open spec fn snapshot_model<P, G, I>(ws: WorkspaceState<P, G, I>) -> StateModel<P, G, I> {
    StateModel {
        modules: pairs_map(ws.modules@),
        geometry: pairs_map(ws.geometry@),
        connections: pairs_map(ws.connections@),
        indications: pairs_map(ws.indications@),
        inputs: pairs_map(ws.inputs@),
        outputs: pairs_map(ws.outputs@),
        channels: ws.channels,
        sample_rate: ws.sample_rate,
        samples_per_tick: ws.samples_per_tick,
    }
}

/// A map changed at `k` only where `k` already is a key.
pub open spec fn replace_existing<K, V>(m: Map<K, V>, k: K, v: V) -> Map<K, V> {
    if m.contains_key(k) {
        m.insert(k, v)
    } else {
        m
    }
}

/// The workspace after one server update.
pub open spec fn updated_model<P, G, I>(s: StateModel<P, G, I>, op: ServerUpdate<P, G, I>) -> StateModel<P, G, I> {
    match op {
        ServerUpdate::CreateModule { id, params, geometry, indication, inputs, outputs } => StateModel {
            modules: s.modules.insert(id, params),
            geometry: s.geometry.insert(id, geometry),
            indications: s.indications.insert(id, indication),
            inputs: s.inputs.insert(id, inputs),
            outputs: s.outputs.insert(id, outputs),
            ..s
        },
        ServerUpdate::UpdateModuleParams(id, params) => StateModel {
            modules: replace_existing(s.modules, id, params),
            ..s
        },
        ServerUpdate::UpdateWindowGeometry(id, geometry) => StateModel {
            geometry: replace_existing(s.geometry, id, geometry),
            ..s
        },
        ServerUpdate::UpdateModuleIndication(id, indication) => StateModel {
            indications: replace_existing(s.indications, id, indication),
            ..s
        },
        ServerUpdate::DeleteModule(id) => StateModel {
            modules: s.modules.remove(id),
            geometry: s.geometry.remove(id),
            indications: s.indications.remove(id),
            inputs: s.inputs.remove(id),
            outputs: s.outputs.remove(id),
            ..s
        },
        ServerUpdate::CreateConnection(input, output) => StateModel {
            connections: s.connections.insert(input, output),
            ..s
        },
        ServerUpdate::DeleteConnection(input) => StateModel {
            connections: s.connections.remove(input),
            ..s
        },
    }
}

proof fn lemma_take_all<T>(s: Seq<T>)
    ensures
        s.take(s.len() as int) == s,
{
    assert(s.take(s.len() as int) =~= s);
}

fn collect_hash<V>(pairs: Vec<(ModuleId, V)>) -> (m: HashMap<ModuleId, V>)
    ensures
        m@ == pairs_map(pairs@),
{
    let mut m: HashMap<ModuleId, V> = HashMap::new();
    let ghost all = pairs@;
    for p in it: pairs.into_iter()
        invariant
            it.seq() == all,
            m@ == pairs_map(all.take(it.index())),
    {
        let ghost i = it.index();
        let (k, v) = p;
        m.insert(k, v);
        proof {
            assert(all.take(i + 1).drop_last() =~= all.take(i));
        }
    }
    proof {
        lemma_take_all(all);
    }
    m
}

fn collect_tree<K: Ord, V>(pairs: Vec<(K, V)>) -> (m: BTreeMap<K, V>)
    requires
        obeys_cmp::<K>(),
    ensures
        m@ == pairs_map(pairs@),
{
    let mut m: BTreeMap<K, V> = BTreeMap::new();
    let ghost all = pairs@;
    for p in it: pairs.into_iter()
        invariant
            obeys_cmp::<K>(),
            it.seq() == all,
            m@ == pairs_map(all.take(it.index())),
    {
        let ghost i = it.index();
        let (k, v) = p;
        m.insert(k, v);
        proof {
            assert(all.take(i + 1).drop_last() =~= all.take(i));
        }
    }
    proof {
        lemma_take_all(all);
    }
    m
}

impl<P, G, I> State<P, G, I> {
    /// Keys a full server snapshot for lookup; where a key occurs twice in
    /// a list, its last pair wins.
    pub fn from(wstate: WorkspaceState<P, G, I>) -> (s: State<P, G, I>)
        ensures
            s@ == snapshot_model(wstate),
            collects(s.modules@, wstate.modules@),
            collects(s.geometry@, wstate.geometry@),
            collects(s.indications@, wstate.indications@),
            collects(s.connections@, wstate.connections@),
            collects(s.inputs@, wstate.inputs@),
            collects(s.outputs@, wstate.outputs@),
            s.channels == wstate.channels,
            s.sample_rate == wstate.sample_rate,
            s.samples_per_tick == wstate.samples_per_tick,
    {
        proof {
            lemma_pairs_map_collects(wstate.modules@);
            lemma_pairs_map_collects(wstate.geometry@);
            lemma_pairs_map_collects(wstate.indications@);
            lemma_pairs_map_collects(wstate.connections@);
            lemma_pairs_map_collects(wstate.inputs@);
            lemma_pairs_map_collects(wstate.outputs@);
        }
        let WorkspaceState {
            modules,
            geometry,
            indications,
            connections,
            inputs,
            outputs,
            channels,
            sample_rate,
            samples_per_tick,
        } = wstate;
        State {
            modules: collect_tree(modules),
            geometry: collect_hash(geometry),
            indications: collect_hash(indications),
            connections: collect_tree(connections),
            inputs: collect_hash(inputs),
            outputs: collect_hash(outputs),
            channels,
            sample_rate,
            samples_per_tick,
        }
    }

    /// Applies one server update. Updates to a module that does not exist
    /// change nothing.
    pub fn apply(&mut self, op: ServerUpdate<P, G, I>)
        ensures
            final(self)@ == updated_model(old(self)@, op),
            op matches ServerUpdate::CreateModule { id, params, geometry, indication, inputs, outputs } ==> {
                &&& final(self).modules@.contains_key(id) && final(self).modules@[id] == params
                &&& final(self).geometry@.contains_key(id) && final(self).geometry@[id] == geometry
                &&& final(self).indications@.contains_key(id) && final(self).indications@[id] == indication
                &&& final(self).inputs@.contains_key(id) && final(self).inputs@[id] == inputs
                &&& final(self).outputs@.contains_key(id) && final(self).outputs@[id] == outputs
                &&& same_except(old(self).modules@, final(self).modules@, id)
                &&& same_except(old(self).geometry@, final(self).geometry@, id)
                &&& same_except(old(self).indications@, final(self).indications@, id)
                &&& same_except(old(self).inputs@, final(self).inputs@, id)
                &&& same_except(old(self).outputs@, final(self).outputs@, id)
                &&& final(self).connections@ == old(self).connections@
            },
            op matches ServerUpdate::CreateConnection(input, output) ==> {
                &&& final(self).connections@.contains_key(input)
                &&& final(self).connections@[input] == output
                &&& same_except(old(self).connections@, final(self).connections@, input)
            },
            op matches ServerUpdate::DeleteConnection(input) ==> {
                &&& !final(self).connections@.contains_key(input)
                &&& same_except(old(self).connections@, final(self).connections@, input)
            },
            op matches ServerUpdate::DeleteModule(id) ==> {
                &&& !final(self).modules@.contains_key(id)
                &&& !final(self).geometry@.contains_key(id)
                &&& !final(self).indications@.contains_key(id)
                &&& !final(self).inputs@.contains_key(id)
                &&& !final(self).outputs@.contains_key(id)
                &&& final(self).connections@ == old(self).connections@
            },
            op matches ServerUpdate::UpdateModuleParams(id, params) ==> {
                &&& old(self).modules@.contains_key(id) ==> final(self).modules@[id] == params
                &&& final(self).modules@.dom() == old(self).modules@.dom()
                &&& same_except(old(self).modules@, final(self).modules@, id)
            },
    {
        match op {
            ServerUpdate::CreateModule { id, params, geometry, indication, inputs, outputs } => {
                self.modules.insert(id, params);
                self.geometry.insert(id, geometry);
                self.indications.insert(id, indication);
                self.inputs.insert(id, inputs);
                self.outputs.insert(id, outputs);
            },
            ServerUpdate::UpdateModuleParams(id, new_params) => {
                if self.modules.contains_key(&id) {
                    self.modules.insert(id, new_params);
                }
            },
            ServerUpdate::UpdateWindowGeometry(id, new_geometry) => {
                if self.geometry.contains_key(&id) {
                    self.geometry.insert(id, new_geometry);
                }
            },
            ServerUpdate::UpdateModuleIndication(id, new_indication) => {
                if self.indications.contains_key(&id) {
                    self.indications.insert(id, new_indication);
                }
            },
            ServerUpdate::DeleteModule(id) => {
                self.modules.remove(&id);
                self.geometry.remove(&id);
                self.indications.remove(&id);
                self.inputs.remove(&id);
                self.outputs.remove(&id);
            },
            ServerUpdate::CreateConnection(input, output) => {
                self.connections.insert(input, output);
            },
            ServerUpdate::DeleteConnection(input) => {
                self.connections.remove(&input);
            },
        }
    }
}


/// Where a key occurs in a snapshot's list, the collected map holds the
/// value of its last occurrence.
pub proof fn law_snapshot_last_pair_wins<K, V>(s: Seq<(K, V)>, i: int)
    requires
        0 <= i < s.len(),
        forall|j: int| i < j < s.len() ==> #[trigger] s[j].0 != s[i].0,
    ensures
        pairs_map(s).contains_key(s[i].0),
        pairs_map(s)[s[i].0] == s[i].1,
    decreases s.len(),
{
    if i < s.len() - 1 {
        let t = s.drop_last();
        assert forall|j: int| i < j < t.len() implies #[trigger] t[j].0 != t[i].0 by {
            assert(t[j] == s[j]);
        }
        law_snapshot_last_pair_wins(t, i);
        assert(s.last() == s[s.len() - 1]);
    }
}

/// The collected map has exactly the keys that occur in the list.
pub proof fn law_snapshot_keys<K, V>(s: Seq<(K, V)>, k: K)
    ensures
        pairs_map(s).contains_key(k) <==> exists|i: int| 0 <= i < s.len() && #[trigger] s[i].0 == k,
    decreases s.len(),
{
    if s.len() > 0 {
        let t = s.drop_last();
        law_snapshot_keys(t, k);
        if exists|i: int| 0 <= i < t.len() && #[trigger] t[i].0 == k {
            let i = choose|i: int| 0 <= i < t.len() && #[trigger] t[i].0 == k;
            assert(s[i] == t[i]);
        }
        if exists|i: int| 0 <= i < s.len() && #[trigger] s[i].0 == k {
            let i = choose|i: int| 0 <= i < s.len() && #[trigger] s[i].0 == k;
            if i < t.len() {
                assert(t[i] == s[i]);
            }
        }
    }
}

/// Creating a module under a fresh id and then deleting it leaves the
/// workspace as it was.
pub proof fn law_create_then_delete_module<P, G, I>(
    s: StateModel<P, G, I>,
    id: ModuleId,
    params: P,
    geometry: G,
    indication: I,
    inputs: Vec<Terminal>,
    outputs: Vec<Terminal>,
)
    requires
        !s.modules.contains_key(id),
        !s.geometry.contains_key(id),
        !s.indications.contains_key(id),
        !s.inputs.contains_key(id),
        !s.outputs.contains_key(id),
    ensures
        updated_model(
            updated_model(s, ServerUpdate::CreateModule { id, params, geometry, indication, inputs, outputs }),
            ServerUpdate::DeleteModule(id),
        ) == s,
{
    let t = updated_model(
        updated_model(s, ServerUpdate::CreateModule { id, params, geometry, indication, inputs, outputs }),
        ServerUpdate::DeleteModule(id),
    );
    assert(t.modules =~= s.modules);
    assert(t.geometry =~= s.geometry);
    assert(t.indications =~= s.indications);
    assert(t.inputs =~= s.inputs);
    assert(t.outputs =~= s.outputs);
}

/// Updates addressed to a module the workspace does not have change nothing.
pub proof fn law_update_of_missing_module_is_ignored<P, G, I>(
    s: StateModel<P, G, I>,
    id: ModuleId,
    params: P,
    geometry: G,
    indication: I,
)
    ensures
        !s.modules.contains_key(id) ==> updated_model(s, ServerUpdate::UpdateModuleParams(id, params)) == s,
        !s.geometry.contains_key(id) ==> updated_model(s, ServerUpdate::UpdateWindowGeometry(id, geometry)) == s,
        !s.indications.contains_key(id) ==> updated_model(s, ServerUpdate::UpdateModuleIndication(id, indication)) == s,
{
}

/// Connecting a free input and then disconnecting it leaves the workspace
/// as it was.
pub proof fn law_connect_then_disconnect<P, G, I>(s: StateModel<P, G, I>, input: InputId, output: OutputId)
    requires
        !s.connections.contains_key(input),
    ensures
        updated_model(
            updated_model(s, ServerUpdate::CreateConnection(input, output)),
            ServerUpdate::DeleteConnection(input),
        ) == s,
{
    let t = updated_model(
        updated_model(s, ServerUpdate::CreateConnection(input, output)),
        ServerUpdate::DeleteConnection(input),
    );
    assert(t.connections =~= s.connections);
}

/// Module updates touch only the module maps and connection updates only
/// the connections; the audio settings never change after the snapshot.
pub proof fn law_updates_stay_in_their_part<P, G, I>(s: StateModel<P, G, I>, op: ServerUpdate<P, G, I>)
    ensures
        updated_model(s, op).channels == s.channels,
        updated_model(s, op).sample_rate == s.sample_rate,
        updated_model(s, op).samples_per_tick == s.samples_per_tick,
        (op is CreateConnection || op is DeleteConnection) ==> {
            &&& updated_model(s, op).modules == s.modules
            &&& updated_model(s, op).geometry == s.geometry
            &&& updated_model(s, op).indications == s.indications
            &&& updated_model(s, op).inputs == s.inputs
            &&& updated_model(s, op).outputs == s.outputs
        },
        !(op is CreateConnection || op is DeleteConnection) ==> updated_model(s, op).connections == s.connections,
{
}

/// No key occurs twice in the list.
pub open spec fn keys_distinct<K, V>(s: Seq<(K, V)>) -> bool {
    forall|i: int, j: int| 0 <= i < s.len() && 0 <= j < s.len() && i != j ==> #[trigger] s[i].0 != #[trigger] s[j].0
}

/// When no id occurs twice, the collected map does not depend on the order
/// of the list: two lists holding the same pairs collect into the same map.
pub proof fn law_snapshot_order_independent<K, V>(s1: Seq<(K, V)>, s2: Seq<(K, V)>)
    requires
        keys_distinct(s1),
        keys_distinct(s2),
        forall|p: (K, V)| s1.contains(p) <==> s2.contains(p),
    ensures
        pairs_map(s1) == pairs_map(s2),
{
    assert forall|k: K| #[trigger] pairs_map(s1).contains_key(k) <==> pairs_map(s2).contains_key(k) by {
        law_snapshot_keys(s1, k);
        law_snapshot_keys(s2, k);
        if exists|i: int| 0 <= i < s1.len() && #[trigger] s1[i].0 == k {
            let i = choose|i: int| 0 <= i < s1.len() && #[trigger] s1[i].0 == k;
            assert(s1.contains(s1[i]));
            let j = choose|j: int| 0 <= j < s2.len() && s2[j] == s1[i];
            assert(s2[j].0 == k);
        }
        if exists|i: int| 0 <= i < s2.len() && #[trigger] s2[i].0 == k {
            let i = choose|i: int| 0 <= i < s2.len() && #[trigger] s2[i].0 == k;
            assert(s2.contains(s2[i]));
            let j = choose|j: int| 0 <= j < s1.len() && s1[j] == s2[i];
            assert(s1[j].0 == k);
        }
    }
    assert forall|k: K| #[trigger] pairs_map(s1).contains_key(k) implies pairs_map(s1)[k] == pairs_map(s2)[k] by {
        law_snapshot_keys(s1, k);
        let i = choose|i: int| 0 <= i < s1.len() && #[trigger] s1[i].0 == k;
        law_snapshot_last_pair_wins(s1, i);
        assert(s1.contains(s1[i]));
        let j = choose|j: int| 0 <= j < s2.len() && s2[j] == s1[i];
        law_snapshot_last_pair_wins(s2, j);
    }
    assert(pairs_map(s1) =~= pairs_map(s2));
}

/// A list collects into a map whose keys are those of the list and whose
/// values are those of each key's last pair.
pub proof fn lemma_pairs_map_collects<K, V>(s: Seq<(K, V)>)
    ensures
        collects(pairs_map(s), s),
{
    assert forall|k: K| #[trigger] pairs_map(s).contains_key(k) <==> exists|i: int|
        0 <= i < s.len() && #[trigger] s[i].0 == k by {
        law_snapshot_keys(s, k);
    }
    assert forall|i: int|
        #![trigger s[i]]
        0 <= i < s.len() && (forall|j: int| i < j < s.len() ==> #[trigger] s[j].0 != s[i].0) implies pairs_map(s)[s[i].0]
        == s[i].1 by {
        law_snapshot_last_pair_wins(s, i);
    }
}

/// Every map of the workspace a snapshot describes holds exactly the ids of
/// the matching list of the snapshot, each with the value of its last pair;
/// the audio settings are those of the snapshot.
pub proof fn law_snapshot_collects_every_list<P, G, I>(ws: WorkspaceState<P, G, I>)
    ensures
        collects(snapshot_model(ws).modules, ws.modules@),
        collects(snapshot_model(ws).geometry, ws.geometry@),
        collects(snapshot_model(ws).indications, ws.indications@),
        collects(snapshot_model(ws).connections, ws.connections@),
        collects(snapshot_model(ws).inputs, ws.inputs@),
        collects(snapshot_model(ws).outputs, ws.outputs@),
        snapshot_model(ws).channels == ws.channels,
        snapshot_model(ws).sample_rate == ws.sample_rate,
        snapshot_model(ws).samples_per_tick == ws.samples_per_tick,
{
    lemma_pairs_map_collects(ws.modules@);
    lemma_pairs_map_collects(ws.geometry@);
    lemma_pairs_map_collects(ws.indications@);
    lemma_pairs_map_collects(ws.connections@);
    lemma_pairs_map_collects(ws.inputs@);
    lemma_pairs_map_collects(ws.outputs@);
}

/// A created module has, under its id, the parameters, geometry, indication,
/// inputs and outputs it was created with, whatever was there before; no
/// other id and no connection changes.
pub proof fn law_create_module_records_all_of_it<P, G, I>(
    s: StateModel<P, G, I>,
    id: ModuleId,
    params: P,
    geometry: G,
    indication: I,
    inputs: Vec<Terminal>,
    outputs: Vec<Terminal>,
)
    ensures
        ({
            let t = updated_model(s, ServerUpdate::CreateModule { id, params, geometry, indication, inputs, outputs });
            &&& t.modules.contains_key(id) && t.modules[id] == params
            &&& t.geometry.contains_key(id) && t.geometry[id] == geometry
            &&& t.indications.contains_key(id) && t.indications[id] == indication
            &&& t.inputs.contains_key(id) && t.inputs[id] == inputs
            &&& t.outputs.contains_key(id) && t.outputs[id] == outputs
            &&& same_except(s.modules, t.modules, id)
            &&& same_except(s.geometry, t.geometry, id)
            &&& same_except(s.indications, t.indications, id)
            &&& same_except(s.inputs, t.inputs, id)
            &&& same_except(s.outputs, t.outputs, id)
            &&& t.connections == s.connections
        }),
{
}

/// An update of an existing module's parameters, geometry or indication
/// sets that value and nothing else; the module's other values and every
/// other module stay as they were.
pub proof fn law_update_sets_the_value<P, G, I>(
    s: StateModel<P, G, I>,
    id: ModuleId,
    params: P,
    geometry: G,
    indication: I,
)
    ensures
        ({
            let t = updated_model(s, ServerUpdate::UpdateModuleParams(id, params));
            &&& s.modules.contains_key(id) ==> t.modules[id] == params
            &&& t.modules.dom() == s.modules.dom()
            &&& same_except(s.modules, t.modules, id)
            &&& t.geometry == s.geometry && t.indications == s.indications
        }),
        ({
            let t = updated_model(s, ServerUpdate::UpdateWindowGeometry(id, geometry));
            &&& s.geometry.contains_key(id) ==> t.geometry[id] == geometry
            &&& t.geometry.dom() == s.geometry.dom()
            &&& same_except(s.geometry, t.geometry, id)
            &&& t.modules == s.modules && t.indications == s.indications
        }),
        ({
            let t = updated_model(s, ServerUpdate::UpdateModuleIndication(id, indication));
            &&& s.indications.contains_key(id) ==> t.indications[id] == indication
            &&& t.indications.dom() == s.indications.dom()
            &&& same_except(s.indications, t.indications, id)
            &&& t.modules == s.modules && t.geometry == s.geometry
        }),
{
    let t = updated_model(s, ServerUpdate::UpdateModuleParams(id, params));
    assert(t.modules.dom() =~= s.modules.dom());
    let t = updated_model(s, ServerUpdate::UpdateWindowGeometry(id, geometry));
    assert(t.geometry.dom() =~= s.geometry.dom());
    let t = updated_model(s, ServerUpdate::UpdateModuleIndication(id, indication));
    assert(t.indications.dom() =~= s.indications.dom());
}

/// A deleted module is gone from every map; every other module and every
/// connection stay as they were.
pub proof fn law_delete_module_removes_it<P, G, I>(s: StateModel<P, G, I>, id: ModuleId)
    ensures
        ({
            let t = updated_model(s, ServerUpdate::DeleteModule(id));
            &&& !t.modules.contains_key(id) && !t.geometry.contains_key(id) && !t.indications.contains_key(id)
            &&& !t.inputs.contains_key(id) && !t.outputs.contains_key(id)
            &&& same_except(s.modules, t.modules, id)
            &&& same_except(s.geometry, t.geometry, id)
            &&& same_except(s.indications, t.indications, id)
            &&& same_except(s.inputs, t.inputs, id)
            &&& same_except(s.outputs, t.outputs, id)
            &&& t.connections == s.connections
        }),
{
}

/// A new connection feeds its input from its output, replacing whatever fed
/// that input before; a deleted connection leaves its input unfed. No other
/// input and no module changes.
pub proof fn law_connection_updates_set_the_input<P, G, I>(
    s: StateModel<P, G, I>,
    input: InputId,
    output: OutputId,
)
    ensures
        ({
            let t = updated_model(s, ServerUpdate::CreateConnection(input, output));
            &&& t.connections.contains_key(input) && t.connections[input] == output
            &&& same_except(s.connections, t.connections, input)
            &&& t.modules == s.modules && t.inputs == s.inputs && t.outputs == s.outputs
        }),
        ({
            let t = updated_model(s, ServerUpdate::DeleteConnection(input));
            &&& !t.connections.contains_key(input)
            &&& same_except(s.connections, t.connections, input)
            &&& t.modules == s.modules && t.inputs == s.inputs && t.outputs == s.outputs
        }),
{
}

} // verus!
