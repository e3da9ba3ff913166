//! The registry: which router owns which tool, in a fixed order.

use crate::descriptor::{DescriptorModel, ToolDescriptor};
use crate::name::{find_name, first_place, is_first_place, names_view, ToolName};
use crate::text::{copy_text, same_text};
use vstd::prelude::*;
use vstd::string::*;

verus! {

/// What the registry keeps of one router.
#[derive(Debug, PartialEq)]
pub struct RouterRecord {
    pub id: String,
    /// Whether the router keeps state in the caller's session.
    pub stateful: bool,
}

/// What a `RouterRecord` is.
pub struct RouterModel {
    pub id: Seq<char>,
    pub stateful: bool,
}

impl View for RouterRecord {
    type V = RouterModel;

    open spec fn view(&self) -> RouterModel {
        RouterModel { id: self.id@, stateful: self.stateful }
    }
}

/// One tool and the place of its router among the registered routers.
#[derive(Debug, PartialEq)]
pub struct ToolEntry {
    pub router: usize,
    pub descriptor: ToolDescriptor,
}

/// Why a registration is refused.
#[derive(Debug, PartialEq)]
pub enum RegistryError {
    /// The registry no longer takes routers: serving has begun.
    Sealed,
    /// A tool of this name is registered already, or the router advertises
    /// the name twice.
    DuplicateTool(String),
}

/// What a `RegistryError` is.
pub enum RegistryFault {
    Sealed,
    DuplicateTool(Seq<char>),
}

impl View for RegistryError {
    type V = RegistryFault;

    open spec fn view(&self) -> RegistryFault {
        match *self {
            RegistryError::Sealed => RegistryFault::Sealed,
            RegistryError::DuplicateTool(name) => RegistryFault::DuplicateTool(name@),
        }
    }
}

/// The descriptors of a list, each as its model.
pub open spec fn descriptors_view(tools: Seq<ToolDescriptor>) -> Seq<DescriptorModel> {
    tools.map_values(|d: ToolDescriptor| d@)
}

/// The names of a list of descriptors, in order.
pub open spec fn names_of(tools: Seq<DescriptorModel>) -> Seq<Seq<char>> {
    tools.map_values(|d: DescriptorModel| d.name)
}

/// Whether the name at `i` of `new` is taken: by a registered tool, or by
/// an earlier tool of the same router.
pub open spec fn clashes_at(existing: Seq<Seq<char>>, new: Seq<Seq<char>>, i: int) -> bool {
    existing.contains(new[i]) || new.take(i).contains(new[i])
}

/// The first name of `new`, from `from` on, that is taken.
pub open spec fn first_clash_from(existing: Seq<Seq<char>>, new: Seq<Seq<char>>, from: int) -> Option<
    Seq<char>,
>
    decreases new.len() - from,
{
    if from < 0 || from >= new.len() {
        None
    } else if clashes_at(existing, new, from) {
        Some(new[from])
    } else {
        first_clash_from(existing, new, from + 1)
    }
}

/// The first name of `new` that is taken.
pub open spec fn first_clash(existing: Seq<Seq<char>>, new: Seq<Seq<char>>) -> Option<Seq<char>> {
    first_clash_from(existing, new, 0)
}

/// Why registering tools named `new` is refused, if it is.
pub open spec fn registration_fault(sealed: bool, existing: Seq<Seq<char>>, new: Seq<Seq<char>>) -> Option<
    RegistryFault,
> {
    if sealed {
        Some(RegistryFault::Sealed)
    } else {
        match first_clash(existing, new) {
            Some(name) => Some(RegistryFault::DuplicateTool(name)),
            None => None,
        }
    }
}

/// `first_clash_from` finds nothing exactly where no name from `from` on is
/// taken.
pub proof fn lemma_first_clash_from(existing: Seq<Seq<char>>, new: Seq<Seq<char>>, from: int)
    requires
        0 <= from <= new.len(),
    ensures
        first_clash_from(existing, new, from) is None <==> forall|i: int|
            from <= i < new.len() ==> !clashes_at(existing, new, i),
    decreases new.len() - from,
{
    if from < new.len() {
        lemma_first_clash_from(existing, new, from + 1);
        if !clashes_at(existing, new, from) {
            if first_clash_from(existing, new, from) is None {
                assert forall|i: int| from <= i < new.len() implies !clashes_at(existing, new, i) by {
                    if i > from {
                    }
                }
            }
        }
    }
}

/// Distinct names stay distinct with `new` behind them exactly when no name
/// of `new` is taken.
pub proof fn lemma_no_clash_iff_distinct(existing: Seq<Seq<char>>, new: Seq<Seq<char>>)
    requires
        existing.no_duplicates(),
    ensures
        first_clash(existing, new) is None <==> (existing + new).no_duplicates(),
{
    lemma_first_clash_from(existing, new, 0);
    let all = existing + new;
    let n = existing.len() as int;
    if first_clash(existing, new) is None {
        assert forall|i: int, j: int| 0 <= i < all.len() && 0 <= j < all.len() && i != j implies all[i]
            != all[j] by {
            let (lo, hi) = if i < j {
                (i, j)
            } else {
                (j, i)
            };
            if hi >= n {
                assert(!clashes_at(existing, new, hi - n));
                if lo < n {
                    assert(existing[lo] == all[lo]);
                    assert(existing.contains(all[lo]));
                } else {
                    assert(new.take(hi - n)[lo - n] == all[lo]);
                    assert(new.take(hi - n).contains(all[lo]));
                }
            }
        }
    }
    if all.no_duplicates() {
        assert forall|i: int| 0 <= i < new.len() implies !clashes_at(existing, new, i) by {
            assert(all[n + i] == new[i]);
            if existing.contains(new[i]) {
                let k = choose|k: int| 0 <= k < existing.len() && existing[k] == new[i];
                assert(all[k] == all[n + i]);
            }
            if new.take(i).contains(new[i]) {
                let k = choose|k: int| 0 <= k < new.take(i).len() && new.take(i)[k] == new[i];
                assert(all[n + k] == all[n + i]);
            }
        }
    }
}

/// Where a router advertises a name that a registered router already has,
/// its registration is refused.
pub proof fn lemma_shared_name_refused(
    sealed: bool,
    existing: Seq<Seq<char>>,
    new: Seq<Seq<char>>,
    name: Seq<char>,
)
    requires
        existing.contains(name),
        new.contains(name),
    ensures
        registration_fault(sealed, existing, new) is Some,
{
    lemma_first_clash_from(existing, new, 0);
    let i = choose|i: int| 0 <= i < new.len() && new[i] == name;
    assert(clashes_at(existing, new, i));
}

/// The tools of a registry into which routers that advertise `batches`
/// were registered one after the other, or nothing where one of them was
/// refused.
pub open spec fn tools_after(batches: Seq<Seq<DescriptorModel>>) -> Option<Seq<DescriptorModel>>
    decreases batches.len(),
{
    if batches.len() == 0 {
        Some(Seq::<DescriptorModel>::empty())
    } else {
        match tools_after(batches.drop_last()) {
            None => None,
            Some(tools) => if registration_fault(false, names_of(tools), names_of(batches.last()))
                is None {
                Some(tools + batches.last())
            } else {
                None
            },
        }
    }
}

/// Why the routers that advertise `batches` cannot all be registered, if
/// they cannot: the fault of the first that is refused.
pub open spec fn refusal_after(batches: Seq<Seq<DescriptorModel>>) -> Option<RegistryFault>
    decreases batches.len(),
{
    if batches.len() == 0 {
        None
    } else {
        match tools_after(batches.drop_last()) {
            None => refusal_after(batches.drop_last()),
            Some(tools) => registration_fault(false, names_of(tools), names_of(batches.last())),
        }
    }
}

/// The routers are all taken in exactly where none is refused.
pub proof fn lemma_refused_or_registered(batches: Seq<Seq<DescriptorModel>>)
    ensures
        tools_after(batches) is None <==> refusal_after(batches) is Some,
    decreases batches.len(),
{
    if batches.len() > 0 {
        lemma_refused_or_registered(batches.drop_last());
    }
}

/// Once a router is refused, the routers behind it change nothing: the
/// whole list is refused, for the same fault.
pub proof fn lemma_refusal_persists(batches: Seq<Seq<DescriptorModel>>, k: int)
    requires
        0 <= k <= batches.len(),
        tools_after(batches.take(k)) is None,
    ensures
        tools_after(batches) is None,
        refusal_after(batches) == refusal_after(batches.take(k)),
    decreases batches.len(),
{
    if k == batches.len() {
        assert(batches.take(k) =~= batches);
    } else {
        assert(batches.drop_last().take(k) =~= batches.take(k));
        lemma_refusal_persists(batches.drop_last(), k);
    }
}

/// Where every router was taken in, the tools are those of each router,
/// in the order of registration and then of declaration, and no name
/// occurs twice.
pub proof fn lemma_registered_tools(batches: Seq<Seq<DescriptorModel>>)
    ensures
        tools_after(batches) matches Some(tools) ==> tools == batches.flatten() && names_of(
            tools,
        ).no_duplicates(),
    decreases batches.len(),
{
    batches.lemma_flatten_and_flatten_alt_are_equivalent();
    if batches.len() == 0 {
    } else {
        let before = batches.drop_last();
        lemma_registered_tools(before);
        before.lemma_flatten_and_flatten_alt_are_equivalent();
        match tools_after(before) {
            None => {},
            Some(tools) => {
                if registration_fault(false, names_of(tools), names_of(batches.last())) is None {
                    lemma_no_clash_iff_distinct(names_of(tools), names_of(batches.last()));
                    assert(names_of(tools + batches.last()) =~= names_of(tools) + names_of(
                        batches.last(),
                    ));
                }
            },
        }
    }
}

/// What a router advertised stays among the tools as more routers come.
pub proof fn lemma_names_stay(batches: Seq<Seq<DescriptorModel>>, i: int, name: Seq<char>)
    requires
        0 <= i < batches.len(),
        names_of(batches[i]).contains(name),
        tools_after(batches) is Some,
    ensures
        names_of(tools_after(batches).unwrap()).contains(name),
    decreases batches.len(),
{
    let before = batches.drop_last();
    let tools = tools_after(before).unwrap();
    let last = batches.last();
    let all = tools + last;
    if i < before.len() {
        assert(before[i] == batches[i]);
        lemma_names_stay(before, i, name);
        let k = choose|k: int| 0 <= k < names_of(tools).len() && names_of(tools)[k] == name;
        assert(names_of(all)[k] == name);
    } else {
        let k = choose|k: int| 0 <= k < names_of(last).len() && names_of(last)[k] == name;
        assert(names_of(all)[tools.len() + k] == name);
    }
}

/// Where two routers advertise the same name, the second is refused: no
/// registry holds them both.
pub proof fn lemma_two_routers_one_name(
    batches: Seq<Seq<DescriptorModel>>,
    i: int,
    j: int,
    name: Seq<char>,
)
    requires
        0 <= i < j < batches.len(),
        names_of(batches[i]).contains(name),
        names_of(batches[j]).contains(name),
    ensures
        tools_after(batches) is None,
    decreases batches.len(),
{
    let before = batches.drop_last();
    if j < before.len() {
        assert(before[i] == batches[i] && before[j] == batches[j]);
        lemma_two_routers_one_name(before, i, j, name);
    } else if tools_after(before) is Some {
        assert(before[i] == batches[i]);
        lemma_names_stay(before, i, name);
        lemma_shared_name_refused(
            false,
            names_of(tools_after(before).unwrap()),
            names_of(batches.last()),
            name,
        );
    }
}

/// The routers and their tools, in the order of registration.
pub struct Registry {
    routers: Vec<RouterRecord>,
    entries: Vec<ToolEntry>,
    /// The name of each tool, in the order of `entries`: the index that
    /// names are looked up in.
    index: Vec<ToolName>,
    sealed: bool,
    advertised: Ghost<Seq<Seq<DescriptorModel>>>,
}

impl Registry {
    /// The descriptors of all tools: by the order in which the routers were
    /// registered, then by the order in which each router declared them.
    pub closed spec fn tools(&self) -> Seq<DescriptorModel> {
        self.entries@.map_values(|e: ToolEntry| e.descriptor@)
    }

    /// For each tool, the place of the router that owns it.
    pub closed spec fn owners(&self) -> Seq<int> {
        self.entries@.map_values(|e: ToolEntry| e.router as int)
    }

    /// The registered routers, in the order of registration.
    pub closed spec fn routers(&self) -> Seq<RouterModel> {
        self.routers@.map_values(|r: RouterRecord| r@)
    }

    /// Whether serving has begun.
    pub closed spec fn is_sealed(&self) -> bool {
        self.sealed
    }

    /// What each registered router advertised, in the order of
    /// registration.
    pub closed spec fn advertised(&self) -> Seq<Seq<DescriptorModel>> {
        self.advertised@
    }

    /// The names of all tools, in the order of `tools`.
    pub open spec fn names(&self) -> Seq<Seq<char>> {
        names_of(self.tools())
    }

    /// No name occurs twice, and every tool has its router.
    pub closed spec fn wf(&self) -> bool {
        &&& self.names().no_duplicates()
        &&& forall|i: int|
            0 <= i < self.entries@.len() ==> (#[trigger] self.entries@[i]).router < self.routers@.len()
        &&& self.advertised@.len() == self.routers@.len()
        &&& tools_after(self.advertised@) == Some(self.tools())
        &&& names_view(self.index@) == self.names()
    }

    /// Whether a tool named `name` is registered.
    pub open spec fn has_tool(&self, name: Seq<char>) -> bool {
        self.names().contains(name)
    }

    /// The place of the tool named `name`, if one is registered.
    pub open spec fn tool_index(&self, name: Seq<char>) -> Option<int> {
        if self.names().contains(name) {
            Some(self.names().index_of(name))
        } else {
            None
        }
    }

    /// In a well-formed registry the tools are those that the routers
    /// advertised, router by router; each tool has one owner among the
    /// routers, and no two tools share a name.
    pub proof fn lemma_tools_are_owned(&self)
        requires
            self.wf(),
        ensures
            tools_after(self.advertised()) == Some(self.tools()),
            self.tools() == self.advertised().flatten(),
            self.advertised().len() == self.routers().len(),
            self.owners().len() == self.tools().len(),
            forall|i: int| 0 <= i < self.owners().len() ==> 0 <= #[trigger] self.owners()[i] < self.routers().len(),
            self.names().no_duplicates(),
    {
        lemma_registered_tools(self.advertised());
    }

    /// An empty registry that takes routers.
    pub fn new() -> (r: Registry)
        ensures
            r.wf(),
            r.tools() == Seq::<DescriptorModel>::empty(),
            r.owners() == Seq::<int>::empty(),
            r.routers() == Seq::<RouterModel>::empty(),
            r.advertised() == Seq::<Seq<DescriptorModel>>::empty(),
            !r.is_sealed(),
    {
        let r = Registry {
            routers: Vec::new(),
            entries: Vec::new(),
            index: Vec::new(),
            sealed: false,
            advertised: Ghost(Seq::empty()),
        };
        assert(names_view(r.index@) =~= r.names());
        assert(r.tools() =~= Seq::<DescriptorModel>::empty());
        assert(r.owners() =~= Seq::<int>::empty());
        assert(r.routers() =~= Seq::<RouterModel>::empty());
        r
    }

    /// Ends registration: from now on the registry only answers.
    pub fn seal(&mut self)
        requires
            old(self).wf(),
        ensures
            final(self).wf(),
            final(self).is_sealed(),
            final(self).tools() == old(self).tools(),
            final(self).owners() == old(self).owners(),
            final(self).routers() == old(self).routers(),
            final(self).advertised() == old(self).advertised(),
    {
        self.sealed = true;
    }

    /// Whether registration has ended.
    pub fn sealed(&self) -> (r: bool)
        ensures
            r == self.is_sealed(),
    {
        self.sealed
    }

    /// The number of registered tools.
    pub fn tool_count(&self) -> (n: usize)
        ensures
            n == self.tools().len(),
    {
        self.entries.len()
    }

    /// The number of registered routers.
    pub fn router_count(&self) -> (n: usize)
        ensures
            n == self.routers().len(),
    {
        self.routers.len()
    }

    /// The place of the tool named `tool_name`, if one is registered.
    pub fn find_tool(&self, tool_name: &str) -> (r: Option<usize>)
        requires
            self.wf(),
        ensures
            match r {
                Some(i) => self.tool_index(tool_name@) == Some(i as int) && i < self.tools().len()
                    && self.tools()[i as int].name == tool_name@ && first_place(
                    self.names(),
                    tool_name@,
                ) == Some(i as int),
                None => self.tool_index(tool_name@) is None && !self.has_tool(tool_name@),
            },
    {
        let target = ToolName::new(tool_name);
        let r = find_name(self.index.as_slice(), &target);
        proof {
            match r {
                Some(i) => {
                    assert(is_first_place(self.names(), tool_name@, i as int));
                    assert(self.names()[i as int] == tool_name@);
                    assert(self.names().contains(tool_name@));
                    let k = self.names().index_of(tool_name@);
                    assert(0 <= k < self.names().len() && self.names()[k] == tool_name@);
                },
                None => {},
            }
        }
        r
    }

    /// The place of the router that owns the tool named `tool_name`.
    pub fn resolve(&self, tool_name: &str) -> (r: Option<usize>)
        requires
            self.wf(),
        ensures
            match self.tool_index(tool_name@) {
                Some(i) => r == Some(self.owners()[i] as usize) && r.unwrap() < self.routers().len(),
                None => r is None,
            },
            r is Some <==> self.has_tool(tool_name@),
    {
        match self.find_tool(tool_name) {
            Some(i) => Some(self.entries[i].router),
            None => None,
        }
    }

    /// The descriptor of the tool at `index`.
    pub fn descriptor(&self, index: usize) -> (r: &ToolDescriptor)
        requires
            index < self.tools().len(),
        ensures
            r@ == self.tools()[index as int],
    {
        &self.entries[index].descriptor
    }

    /// The place of the router that owns the tool at `index`.
    pub fn owner(&self, index: usize) -> (r: usize)
        requires
            self.wf(),
            index < self.tools().len(),
        ensures
            r == self.owners()[index as int],
            r < self.routers().len(),
    {
        self.entries[index].router
    }

    /// What the registry keeps of the router at `index`.
    pub fn router(&self, index: usize) -> (r: &RouterRecord)
        requires
            index < self.routers().len(),
        ensures
            r@ == self.routers()[index as int],
    {
        &self.routers[index]
    }

    /// The descriptors of all tools, in the order of `tools`.
    pub fn list_all_tools(&self) -> (r: Vec<ToolDescriptor>)
        requires
            self.wf(),
        ensures
            descriptors_view(r@) == self.tools(),
            descriptors_view(r@) == self.advertised().flatten(),
            names_of(descriptors_view(r@)).no_duplicates(),
    {
        proof {
            self.lemma_tools_are_owned();
        }
        let n: usize = self.entries.len();
        let mut out: Vec<ToolDescriptor> = Vec::new();
        let mut i: usize = 0;
        while i < n
            invariant
                n == self.entries@.len(),
                i <= n,
                out@.len() == i,
                forall|j: int| 0 <= j < i ==> (#[trigger] out@[j])@ == self.entries@[j].descriptor@,
            decreases n - i,
        {
            out.push(self.entries[i].descriptor.duplicate());
            i = i + 1;
        }
        assert(descriptors_view(out@) =~= self.tools());
        out
    }

    /// Registers a router with the tools that it advertises. The router is
    /// refused, and the registry left as it was, where registration has
    /// ended or one of the names is taken; the first such name is reported.
    /// A router that is taken in gets the next place.
    pub fn register(&mut self, id: &str, stateful: bool, tools: &Vec<ToolDescriptor>) -> (r: Result<
        usize,
        RegistryError,
    >)
        requires
            old(self).wf(),
        ensures
            final(self).wf(),
            final(self).is_sealed() == old(self).is_sealed(),
            match registration_fault(
                old(self).is_sealed(),
                old(self).names(),
                names_of(descriptors_view(tools@)),
            ) {
                Some(fault) => {
                    &&& r is Err
                    &&& r.unwrap_err()@ == fault
                    &&& final(self).tools() == old(self).tools()
                    &&& final(self).owners() == old(self).owners()
                    &&& final(self).routers() == old(self).routers()
                    &&& final(self).advertised() == old(self).advertised()
                },
                None => {
                    &&& r == Ok::<usize, RegistryError>(old(self).routers().len() as usize)
                    &&& final(self).tools() == old(self).tools() + descriptors_view(tools@)
                    &&& final(self).owners() == old(self).owners() + Seq::new(
                        tools@.len(),
                        |i: int| old(self).routers().len() as int,
                    )
                    &&& final(self).routers() == old(self).routers().push(
                        RouterModel { id: id@, stateful },
                    )
                    &&& final(self).advertised() == old(self).advertised().push(
                        descriptors_view(tools@),
                    )
                },
            },
    {
        if self.sealed {
            return Err(RegistryError::Sealed);
        }
        let ghost existing = self.names();
        let ghost new = names_of(descriptors_view(tools@));
        let n: usize = tools.len();
        let mut i: usize = 0;
        while i < n
            invariant
                n == tools@.len(),
                i <= n,
                self.wf(),
                !self.sealed,
                *self == *old(self),
                existing == self.names(),
                new == names_of(descriptors_view(tools@)),
                first_clash(existing, new) == first_clash_from(existing, new, i as int),
            decreases n - i,
        {
            let name: &str = tools[i].name.as_str();
            assert(new[i as int] == name@);
            let taken: bool = match self.find_tool(name) {
                Some(_) => true,
                None => name_among(tools, i, name),
            };
            assert(taken == clashes_at(existing, new, i as int));
            if taken {
                return Err(RegistryError::DuplicateTool(copy_text(name)));
            }
            i = i + 1;
        }
        proof {
            lemma_no_clash_iff_distinct(existing, new);
        }
        let place: usize = self.routers.len();
        self.routers.push(RouterRecord { id: copy_text(id), stateful });
        self.advertised = Ghost(self.advertised@.push(descriptors_view(tools@)));
        let mut k: usize = 0;
        while k < n
            invariant
                n == tools@.len(),
                k <= n,
                self.sealed == old(self).sealed,
                self.advertised@ == old(self).advertised@.push(descriptors_view(tools@)),
                place == old(self).routers@.len(),
                self.routers@ == old(self).routers@.push(self.routers@[place as int]),
                self.routers@[place as int]@ == (RouterModel { id: id@, stateful }),
                self.entries@.len() == old(self).entries@.len() + k,
                self.index@.len() == old(self).index@.len() + k,
                forall|j: int|
                    0 <= j < old(self).index@.len() ==> #[trigger] self.index@[j] == old(self).index@[j],
                forall|j: int|
                    0 <= j < k ==> (#[trigger] self.index@[old(self).index@.len() + j])@
                        == tools@[j].name@,
                forall|j: int|
                    0 <= j < old(self).entries@.len() ==> #[trigger] self.entries@[j] == old(
                        self,
                    ).entries@[j],
                forall|j: int|
                    0 <= j < k ==> (#[trigger] self.entries@[old(self).entries@.len() + j]).descriptor@
                        == tools@[j]@ && self.entries@[old(self).entries@.len() + j].router == place,
            decreases n - k,
        {
            self.entries.push(ToolEntry { router: place, descriptor: tools[k].duplicate() });
            self.index.push(ToolName::new(tools[k].name.as_str()));
            k = k + 1;
        }
        proof {
            let base = old(self).entries@.len() as int;
            let count = old(self).routers().len() as int;
            let added = Seq::new(tools@.len(), |i: int| count);
            assert(self.entries@.len() == base + n);
            assert forall|j: int| 0 <= j < self.entries@.len() implies #[trigger] self.tools()[j] == (
            old(self).tools() + descriptors_view(tools@))[j] by {
                if j >= base {
                    assert(self.entries@[base + (j - base)].router == place);
                } else {
                    assert(self.entries@[j] == old(self).entries@[j]);
                }
            }
            assert(self.tools() =~= old(self).tools() + descriptors_view(tools@));
            assert forall|j: int| 0 <= j < self.entries@.len() implies #[trigger] self.owners()[j] == (
            old(self).owners() + added)[j] by {
                if j >= base {
                    assert(self.entries@[base + (j - base)].router == place);
                    assert(added[j - base] == count);
                } else {
                    assert(self.entries@[j] == old(self).entries@[j]);
                }
            }
            assert(self.owners() =~= old(self).owners() + added);
            assert(self.routers() =~= old(self).routers().push(RouterModel { id: id@, stateful }));
            assert(self.names() =~= existing + new);
            assert(old(self).index@.len() == base);
            assert forall|j: int| 0 <= j < self.index@.len() implies #[trigger] names_view(
                self.index@,
            )[j] == self.names()[j] by {
                if j >= base {
                    assert(self.index@[base + (j - base)]@ == tools@[j - base].name@);
                } else {
                    assert(self.index@[j] == old(self).index@[j]);
                    assert(names_view(old(self).index@)[j] == old(self).names()[j]);
                }
            }
            assert(names_view(self.index@) =~= self.names());
            assert(self.advertised@.drop_last() =~= old(self).advertised@);
            assert(self.advertised@.last() == descriptors_view(tools@));
            assert(first_clash(existing, new) is None);
            assert(tools_after(self.advertised@) == Some(self.tools()));
            assert forall|j: int| 0 <= j < self.entries@.len() implies (#[trigger] self.entries@[j]).router
                < self.routers@.len() by {
                if j >= base {
                    assert(self.entries@[base + (j - base)].router == place);
                } else {
                    assert(self.entries@[j] == old(self).entries@[j]);
                }
            }
        }
        Ok(place)
    }
}

/// Whether one of the first `upto` descriptors has the name `name`.
pub fn name_among(tools: &Vec<ToolDescriptor>, upto: usize, name: &str) -> (r: bool)
    requires
        upto <= tools@.len(),
    ensures
        r == names_of(descriptors_view(tools@)).take(upto as int).contains(name@),
{
    let ghost names = names_of(descriptors_view(tools@)).take(upto as int);
    let mut i: usize = 0;
    while i < upto
        invariant
            upto <= tools@.len(),
            i <= upto,
            names == names_of(descriptors_view(tools@)).take(upto as int),
            forall|j: int| 0 <= j < i ==> (#[trigger] names[j]) != name@,
        decreases upto - i,
    {
        if same_text(tools[i].name.as_str(), name) {
            assert(names[i as int] == name@);
            return true;
        }
        i = i + 1;
    }
    false
}

} // verus!
