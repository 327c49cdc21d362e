//! The binding table: GPU resources by name, shared by the whole graph or
//! attached to one asset.

use vstd::prelude::*;
use crate::names::{distinct, texts};
use crate::table::NameTable;

verus! {

/// A GPU resource that shader code can use. A dynamic buffer may change its
/// size from frame to frame.
#[derive(Clone, Copy, Debug, PartialEq, Eq, Structural)]
pub enum RenderResourceBinding {
    Buffer { resource: u64, dynamic: bool },
    Texture { resource: u64 },
    Sampler { resource: u64 },
}

impl RenderResourceBinding {
    /// The binding is a buffer whose size may change at run time.
    pub open spec fn is_dynamic(self) -> bool {
        match self {
            RenderResourceBinding::Buffer { dynamic, .. } => dynamic,
            _ => false,
        }
    }

    /// Whether the binding is a buffer whose size may change at run time.
    pub fn dynamic(&self) -> (r: bool)
        ensures
            r == self.is_dynamic(),
    {
        match self {
            RenderResourceBinding::Buffer { dynamic, .. } => *dynamic,
            _ => false,
        }
    }
}

/// Picks the names that are bound to a dynamic buffer in `bindings`.
pub open spec fn is_dynamic_in(bindings: Map<Seq<char>, RenderResourceBinding>) -> spec_fn(Seq<char>) -> bool {
    |name: Seq<char>| bindings.contains_key(name) && bindings[name].is_dynamic()
}

/// The bindings of one scope: at most one resource under each name.
pub struct RenderResourceBindings {
    table: NameTable<RenderResourceBinding>,
}

impl View for RenderResourceBindings {
    type V = Map<Seq<char>, RenderResourceBinding>;

    closed spec fn view(&self) -> Map<Seq<char>, RenderResourceBinding> {
        self.table@
    }
}

impl RenderResourceBindings {
    /// Every name stands once, beside its resource.
    pub closed spec fn wf(&self) -> bool {
        self.table.wf()
    }

    /// The names in the order in which they were first bound.
    pub closed spec fn names(&self) -> Seq<Seq<char>> {
        self.table.names()
    }

    /// A scope without bindings.
    pub fn new() -> (b: Self)
        ensures
            b.wf(),
            b@ == Map::<Seq<char>, RenderResourceBinding>::empty(),
            b.names().len() == 0,
    {
        RenderResourceBindings { table: NameTable::new() }
    }

    /// The names are those that have a binding, each once.
    pub proof fn lemma_names(&self)
        requires
            self.wf(),
        ensures
            distinct(self.names()),
            forall|name: Seq<char>| self@.contains_key(name) <==> self.names().contains(name),
    {
        self.table.lemma_names();
    }

    /// Number of bindings.
    pub fn len(&self) -> (n: usize)
        requires
            self.wf(),
        ensures
            n == self.names().len(),
    {
        self.table.len()
    }

    /// The resource bound under `name`, if there is one.
    pub fn get(&self, name: &str) -> (r: Option<RenderResourceBinding>)
        requires
            self.wf(),
        ensures
            r == if self@.contains_key(name@) {
                Some(self@[name@])
            } else {
                None
            },
    {
        match self.table.get(name) {
            Some(binding) => Some(*binding),
            None => None,
        }
    }

    /// Binds `binding` under `name`, in place of what was bound there.
    pub fn set(&mut self, name: &str, binding: RenderResourceBinding)
        requires
            old(self).wf(),
        ensures
            final(self).wf(),
            final(self)@ == old(self)@.insert(name@, binding),
            final(self).names() == if old(self)@.contains_key(name@) {
                old(self).names()
            } else {
                old(self).names().push(name@)
            },
    {
        self.table.set(name, binding)
    }

    /// The names of the dynamic bindings of the scope, in the order in which
    /// they were first bound: what a pipeline specialization has to know of
    /// the scope.
    pub fn dynamic_names(&self) -> (r: Vec<String>)
        requires
            self.wf(),
        ensures
            texts(r@) == self.names().filter(is_dynamic_in(self@)),
            forall|name: Seq<char>|
                texts(r@).contains(name) <==> self@.contains_key(name) && self@[name].is_dynamic(),
    {
        let mut r: Vec<String> = Vec::new();
        let mut i: usize = 0;
        let n = self.table.len();
        let ghost names = self.table.names();
        let ghost wanted = is_dynamic_in(self@);
        proof {
            self.table.lemma_names();
            reveal(Seq::filter);
            assert(names.take(0) =~= Seq::<Seq<char>>::empty());
        }
        while i < n
            invariant
                i <= n,
                self.wf(),
                n == names.len(),
                names == self.table.names(),
                wanted == is_dynamic_in(self@),
                forall|j: int| 0 <= j < n ==> self@[#[trigger] names[j]] == self.table.values()[j],
                forall|name: Seq<char>| self@.contains_key(name) <==> names.contains(name),
                texts(r@) == names.take(i as int).filter(wanted),
            decreases n - i,
        {
            let ghost before = texts(r@);
            proof {
                reveal(Seq::filter);
                assert(names.take(i + 1).drop_last() =~= names.take(i as int));
                assert(names.take(i + 1).last() == names[i as int]);
                assert(names.contains(names[i as int]));
            }
            if self.table.value_at(i).dynamic() {
                r.push(self.table.name_at(i).clone());
                proof {
                    assert(texts(r@) =~= before.push(names[i as int]));
                }
            }
            i += 1;
        }
        proof {
            assert(names.take(n as int) =~= names);
            self.table.lemma_names();
            let kept = names.filter(wanted);
            assert forall|name: Seq<char>|
                texts(r@).contains(name) <==> self@.contains_key(name) && self@[name].is_dynamic() by {
                if kept.contains(name) {
                    let k = choose|k: int| 0 <= k < kept.len() && kept[k] == name;
                    names.lemma_filter_pred(wanted, k);
                    assert(wanted(name));
                }
                if self@.contains_key(name) && self@[name].is_dynamic() {
                    assert(names.contains(name));
                    let k = choose|k: int| 0 <= k < names.len() && names[k] == name;
                    assert(wanted(names[k]));
                    names.lemma_filter_contains(wanted, k);
                }
            }
        }
        r
    }

    /// Takes every binding out of the scope.
    pub fn clear(&mut self)
        ensures
            final(self).wf(),
            final(self)@ == Map::<Seq<char>, RenderResourceBinding>::empty(),
            final(self).names().len() == 0,
    {
        self.table.clear()
    }
}

/// The bindings that are attached to assets: one scope for each asset that
/// has any.
pub struct AssetRenderResourceBindings {
    assets: Vec<u64>,
    scopes: Vec<RenderResourceBindings>,
}

/// The place of `asset` among `assets`, if it is there.
fn find_asset(assets: &Vec<u64>, asset: u64) -> (r: Option<usize>)
    ensures
        match r {
            Some(i) => i < assets.len() && assets[i as int] == asset,
            None => !assets@.contains(asset),
        },
{
    let mut i: usize = 0;
    while i < assets.len()
        invariant
            i <= assets.len(),
            forall|j: int| 0 <= j < i ==> assets[j] != asset,
        decreases assets.len() - i,
    {
        if assets[i] == asset {
            return Some(i);
        }
        i += 1;
    }
    None
}

impl View for AssetRenderResourceBindings {
    type V = Map<u64, Map<Seq<char>, RenderResourceBinding>>;

    closed spec fn view(&self) -> Map<u64, Map<Seq<char>, RenderResourceBinding>> {
        Map::new(
            |asset: u64| self.assets@.contains(asset),
            |asset: u64| self.scopes[self.assets@.index_of(asset)]@,
        )
    }
}

impl AssetRenderResourceBindings {
    /// Every asset stands once, beside its scope, and every scope is well formed.
    pub closed spec fn wf(&self) -> bool {
        &&& self.assets.len() == self.scopes.len()
        &&& self.assets@.no_duplicates()
        &&& forall|i: int| 0 <= i < self.scopes.len() ==> #[trigger] self.scopes[i].wf()
    }

    /// `asset` stands at place `i` and nowhere else.
    proof fn lemma_place(&self, asset: u64, i: int)
        requires
            self.wf(),
            0 <= i < self.assets.len(),
            self.assets[i] == asset,
        ensures
            self.assets@.contains(asset),
            self.assets@.index_of(asset) == i,
            self@.contains_key(asset),
            self@[asset] == self.scopes[i]@,
    {
        assert(self.assets@.contains(asset));
        let k = self.assets@.index_of(asset);
        assert(self.assets@[k] == asset);
    }

    /// No asset has bindings.
    pub fn new() -> (b: Self)
        ensures
            b.wf(),
            b@ == Map::<u64, Map<Seq<char>, RenderResourceBinding>>::empty(),
    {
        let b = AssetRenderResourceBindings { assets: Vec::new(), scopes: Vec::new() };
        proof {
            assert(b@ =~= Map::<u64, Map<Seq<char>, RenderResourceBinding>>::empty());
        }
        b
    }

    /// The scope of `asset`, if it has one.
    pub fn get(&self, asset: u64) -> (r: Option<&RenderResourceBindings>)
        requires
            self.wf(),
        ensures
            r is Some == self@.contains_key(asset),
            r is Some ==> r->Some_0.wf() && r->Some_0@ == self@[asset],
    {
        match find_asset(&self.assets, asset) {
            Some(i) => {
                proof {
                    self.lemma_place(asset, i as int);
                }
                Some(&self.scopes[i])
            },
            None => None,
        }
    }

    /// Binds `binding` under `name` in the scope of `asset`, which is made if
    /// the asset had none.
    pub fn set(&mut self, asset: u64, name: &str, binding: RenderResourceBinding)
        requires
            old(self).wf(),
        ensures
            final(self).wf(),
            final(self)@ == old(self)@.insert(
                asset,
                if old(self)@.contains_key(asset) {
                    old(self)@[asset].insert(name@, binding)
                } else {
                    Map::<Seq<char>, RenderResourceBinding>::empty().insert(name@, binding)
                },
            ),
    {
        let ghost before = *self;
        match find_asset(&self.assets, asset) {
            Some(i) => {
                proof {
                    self.lemma_place(asset, i as int);
                }
                self.scopes[i].set(name, binding);
                proof {
                    assert(self.assets@ == before.assets@);
                    assert forall|j: int| 0 <= j < self.scopes.len() implies #[trigger] self.scopes[j].wf() by {
                        if j != i {
                            assert(self.scopes[j] == before.scopes[j]);
                            assert(before.scopes[j].wf());
                        }
                    }
                    self.lemma_place(asset, i as int);
                    assert forall|a: u64| #[trigger] self@.contains_key(a) && a != asset implies self@[a]
                        == before@[a] by {
                        let k = self.assets@.index_of(a);
                        assert(self.assets@[k] == a);
                        assert(self.scopes[k] == before.scopes[k]);
                    }
                    assert(self@ =~= before@.insert(asset, before@[asset].insert(name@, binding)));
                }
            },
            None => {
                let mut scope = RenderResourceBindings::new();
                scope.set(name, binding);
                self.assets.push(asset);
                self.scopes.push(scope);
                proof {
                    let last = self.assets.len() - 1;
                    assert forall|i: int, j: int|
                        0 <= i < self.assets.len() && 0 <= j < self.assets.len() && i != j implies self.assets[i]
                        != self.assets[j] by {
                        if i < last && j < last {
                            assert(before.assets[i] != before.assets[j]);
                        } else if i < last {
                            assert(before.assets[i] != asset);
                        } else {
                            assert(before.assets[j] != asset);
                        }
                    }
                    assert forall|j: int| 0 <= j < self.scopes.len() implies #[trigger] self.scopes[j].wf() by {
                        if j < last {
                            assert(self.scopes[j] == before.scopes[j]);
                            assert(before.scopes[j].wf());
                        }
                    }
                    self.lemma_place(asset, last as int);
                    assert forall|a: u64| #[trigger] self@.contains_key(a) && a != asset implies before@.contains_key(
                        a,
                    ) && self@[a] == before@[a] by {
                        let k = self.assets@.index_of(a);
                        assert(self.assets@[k] == a);
                        assert(before.assets@[k] == a);
                        before.lemma_place(a, k);
                        assert(self.scopes[k] == before.scopes[k]);
                    }
                    assert forall|a: u64| before@.contains_key(a) implies #[trigger] self@.contains_key(a) by {
                        let k = before.assets@.index_of(a);
                        assert(before.assets@[k] == a);
                        assert(self.assets@[k] == a);
                    }
                    assert(self@ =~= before@.insert(
                        asset,
                        Map::<Seq<char>, RenderResourceBinding>::empty().insert(name@, binding),
                    ));
                }
            },
        }
    }

    /// The resource that `name` stands for where `asset` is drawn: the one
    /// attached to the asset, or else the one that the whole graph shares.
    pub fn resolve(&self, global: &RenderResourceBindings, asset: u64, name: &str) -> (r: Option<
        RenderResourceBinding,
    >)
        requires
            self.wf(),
            global.wf(),
        ensures
            r == if self@.contains_key(asset) && self@[asset].contains_key(name@) {
                Some(self@[asset][name@])
            } else if global@.contains_key(name@) {
                Some(global@[name@])
            } else {
                None
            },
    {
        match self.get(asset) {
            Some(scope) => match scope.get(name) {
                Some(b) => Some(b),
                None => global.get(name),
            },
            None => global.get(name),
        }
    }
}

} // verus!
