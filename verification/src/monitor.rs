use vstd::prelude::*;
use crate::text::string_views;

verus! {

/// The attributes of a monitor that the report reads.
pub struct MonitorAttributes {
    pub pronounceable_name: Option<String>,
    pub url: Option<String>,
}

/// A BetterStack monitor.
pub struct Monitor {
    pub id: String,
    pub attributes: MonitorAttributes,
}

/// The name under which a monitor is reported: its pronounceable name, else
/// its URL, else `Unknown`.
pub open spec fn display_name_of(a: MonitorAttributes) -> Seq<char> {
    match a.pronounceable_name {
        Some(n) => n@,
        None => match a.url {
            Some(u) => u@,
            None => "Unknown"@,
        },
    }
}

/// The name under which a monitor is reported.
pub fn display_name(attributes: &MonitorAttributes) -> (r: String)
    ensures
        r@ == display_name_of(*attributes),
{
    match &attributes.pronounceable_name {
        Some(n) => n.clone(),
        None => match &attributes.url {
            Some(u) => u.clone(),
            None => String::from_str("Unknown"),
        },
    }
}

/// Whether `id` is one of `ids`.
pub fn contains_id(ids: &Vec<String>, id: &String) -> (r: bool)
    ensures
        r == string_views(ids@).contains(id@),
{
    let ghost views = string_views(ids@);
    let mut j: usize = 0;
    while j < ids.len()
        invariant
            j <= ids@.len(),
            views == string_views(ids@),
            forall|k: int| 0 <= k < j ==> views[k] != id@,
        decreases ids.len() - j,
    {
        if ids[j] == *id {
            assert(views[j as int] == id@);
            return true;
        }
        j = j + 1;
    }
    false
}

/// Keeps the monitors whose id is one of `ids`, in their order.
pub fn filter_monitors_by_ids(monitors: Vec<Monitor>, ids: &Vec<String>) -> (r: Vec<Monitor>)
    ensures
        r@ == monitors@.filter(|m: Monitor| string_views(ids@).contains(m.id@)),
{
    let ghost pred = |m: Monitor| string_views(ids@).contains(m.id@);
    let ghost orig = monitors@;
    let mut rest = monitors;
    let mut out: Vec<Monitor> = Vec::new();
    let ghost mut k: int = 0;
    proof {
        assert(orig.take(0) =~= Seq::<Monitor>::empty());
        assert(orig.skip(0) =~= orig);
        reveal(Seq::filter);
        assert(orig.take(0).filter(pred) =~= Seq::<Monitor>::empty());
    }
    while rest.len() > 0
        invariant
            pred == (|m: Monitor| string_views(ids@).contains(m.id@)),
            0 <= k <= orig.len(),
            rest@ == orig.skip(k),
            out@ == orig.take(k).filter(pred),
        decreases rest.len(),
    {
        let m = rest.remove(0);
        assert(m == orig[k]);
        assert(rest@ =~= orig.skip(k + 1));
        let keep = contains_id(ids, &m.id);
        proof {
            assert(orig.take(k + 1) =~= orig.take(k).push(m));
            orig.take(k).lemma_filter_push(m, pred);
        }
        if keep {
            out.push(m);
        }
        proof {
            k = k + 1;
        }
    }
    proof {
        assert(orig.take(orig.len() as int) =~= orig);
    }
    out
}

/// The id of a status-page resource as the API gives it.
pub enum ResourceId {
    /// A JSON string.
    Text(String),
    /// A JSON number, held by its decimal text.
    Number(String),
    /// Any other JSON value.
    Other,
}

/// A resource published on a status page.
pub struct Resource {
    pub resource_type: Option<String>,
    pub resource_id: ResourceId,
}

/// The monitor id that a resource stands for: its id as text, when the
/// resource is of type `Monitor` and its id is a string or a number.
pub open spec fn monitor_id_of(r: Resource) -> Option<Seq<char>> {
    match r.resource_type {
        Some(t) => if t@ == "Monitor"@ {
            match r.resource_id {
                ResourceId::Text(s) => Some(s@),
                ResourceId::Number(n) => Some(n@),
                ResourceId::Other => None,
            }
        } else {
            None
        },
        None => None,
    }
}

/// The monitor ids that a list of resources stands for.
pub open spec fn monitor_ids(rs: Seq<Resource>) -> Set<Seq<char>> {
    Set::new(|x: Seq<char>| exists|i: int| 0 <= i < rs.len() && #[trigger] monitor_id_of(rs[i]) == Some(x))
}

/// Only a resource whose type is exactly `Monitor` stands for a monitor; a
/// type that merely begins with it, or any other, stands for none.
pub proof fn lemma_monitor_type_exact(r: Resource)
    requires
        monitor_id_of(r) is Some,
    ensures
        r.resource_type is Some,
        r.resource_type->0@ == "Monitor"@,
{
}

/// A resource of type exactly `Monitor` whose id is a string or a number
/// stands for the monitor of that id, as text.
pub proof fn lemma_monitor_resource_counts(r: Resource, t: String, id: String)
    requires
        r.resource_type == Some(t),
        t@ == "Monitor"@,
        r.resource_id == ResourceId::Text(id) || r.resource_id == ResourceId::Number(id),
    ensures
        monitor_id_of(r) == Some(id@),
{
}

/// The ids collected from a list of resources are exactly the ids, as text,
/// of its resources of type exactly `Monitor` whose id is a string or a
/// number.
pub proof fn lemma_monitor_ids_exact(rs: Seq<Resource>, x: Seq<char>)
    ensures
        monitor_ids(rs).contains(x) <==> exists|i: int|
            0 <= i < rs.len() && (#[trigger] rs[i]).resource_type is Some && rs[i].resource_type->0@ == "Monitor"@
                && ((rs[i].resource_id matches ResourceId::Text(s) && s@ == x) || (
            rs[i].resource_id matches ResourceId::Number(n) && n@ == x)),
{
    if monitor_ids(rs).contains(x) {
        let i = choose|i: int| 0 <= i < rs.len() && #[trigger] monitor_id_of(rs[i]) == Some(x);
        lemma_monitor_type_exact(rs[i]);
    }
    if exists|i: int|
        0 <= i < rs.len() && (#[trigger] rs[i]).resource_type is Some && rs[i].resource_type->0@ == "Monitor"@
            && ((rs[i].resource_id matches ResourceId::Text(s) && s@ == x) || (
        rs[i].resource_id matches ResourceId::Number(n) && n@ == x)) {
        let i = choose|i: int|
            0 <= i < rs.len() && (#[trigger] rs[i]).resource_type is Some && rs[i].resource_type->0@ == "Monitor"@
                && ((rs[i].resource_id matches ResourceId::Text(s) && s@ == x) || (
            rs[i].resource_id matches ResourceId::Number(n) && n@ == x));
        assert(monitor_id_of(rs[i]) == Some(x));
    }
}

/// The monitor id that a resource stands for, if any.
pub fn resource_monitor_id(r: &Resource) -> (id: Option<String>)
    ensures
        match id {
            Some(s) => monitor_id_of(*r) == Some(s@),
            None => monitor_id_of(*r) is None,
        },
{
    match &r.resource_type {
        Some(t) => {
            let monitor = String::from_str("Monitor");
            if *t == monitor {
                match &r.resource_id {
                    ResourceId::Text(s) => Some(s.clone()),
                    ResourceId::Number(n) => Some(n.clone()),
                    ResourceId::Other => None,
                }
            } else {
                None
            }
        },
        None => None,
    }
}

/// Adds to `ids` the monitor ids of `resources` that it does not hold yet.
pub fn add_monitor_ids(ids: &mut Vec<String>, resources: &Vec<Resource>)
    requires
        string_views(old(ids)@).no_duplicates(),
    ensures
        string_views(final(ids)@).no_duplicates(),
        string_views(final(ids)@).to_set() == string_views(old(ids)@).to_set().union(monitor_ids(resources@)),
{
    let ghost start = string_views(ids@).to_set();
    let mut i: usize = 0;
    while i < resources.len()
        invariant
            i <= resources@.len(),
            string_views(ids@).no_duplicates(),
            string_views(ids@).to_set() == start.union(monitor_ids(resources@.take(i as int))),
        decreases resources.len() - i,
    {
        let ghost before = ids@;
        let found = resource_monitor_id(&resources[i]);
        proof {
            let prefix = resources@.take(i as int);
            let next = resources@.take(i + 1);
            assert(next =~= prefix.push(resources@[i as int]));
            assert forall|x: Seq<char>| #[trigger] monitor_ids(next).contains(x) <==> monitor_ids(prefix).contains(x)
                || monitor_id_of(resources@[i as int]) == Some(x) by {
                if monitor_ids(next).contains(x) {
                    let j = choose|j: int| 0 <= j < next.len() && #[trigger] monitor_id_of(next[j]) == Some(x);
                    if j < i {
                        assert(prefix[j] == next[j]);
                    }
                }
                if monitor_ids(prefix).contains(x) {
                    let j = choose|j: int| 0 <= j < prefix.len() && #[trigger] monitor_id_of(prefix[j]) == Some(x);
                    assert(next[j] == prefix[j]);
                }
                if monitor_id_of(resources@[i as int]) == Some(x) {
                    assert(next[i as int] == resources@[i as int]);
                }
            }
        }
        match found {
            Some(id) => {
                if !contains_id(ids, &id) {
                    ids.push(id);
                    proof {
                        assert(string_views(ids@) =~= string_views(before).push(id@));
                    }
                }
            },
            None => {},
        }
        proof {
            let now = string_views(ids@);
            let was = string_views(before);
            assert forall|x: Seq<char>| now.contains(x) <==> was.contains(x) || monitor_id_of(resources@[i as int]) == Some(x) by {
                if now.len() > was.len() {
                    if now.contains(x) {
                        let j = choose|j: int| 0 <= j < now.len() && now[j] == x;
                        if j < was.len() {
                            assert(was[j] == x);
                        }
                    }
                    if was.contains(x) {
                        let j = choose|j: int| 0 <= j < was.len() && was[j] == x;
                        assert(now[j] == x);
                    }
                    assert(now[now.len() - 1] == now.last());
                } else {
                    assert(now =~= was);
                }
            }
            let prefix = resources@.take(i as int);
            let next = resources@.take(i + 1);
            assert forall|x: Seq<char>| #[trigger] now.to_set().contains(x) <==> start.union(monitor_ids(next)).contains(x) by {
                assert(was.to_set().contains(x) == was.contains(x));
                assert(now.to_set().contains(x) == now.contains(x));
                assert(start.union(monitor_ids(prefix)).contains(x) == was.contains(x));
                assert(monitor_ids(next).contains(x) <==> monitor_ids(prefix).contains(x)
                    || monitor_id_of(resources@[i as int]) == Some(x));
            }
            assert(string_views(ids@).to_set() =~= start.union(monitor_ids(resources@.take(i + 1))));
        }
        i = i + 1;
    }
    proof {
        assert(resources@.take(resources@.len() as int) =~= resources@);
    }
}


/// A status page.
pub struct StatusPage {
    pub id: String,
}

/// Where a sweep over status pages stands: the pages, how many have been
/// read, and the monitor ids found so far.
pub struct SweepView {
    pub pages: Seq<Seq<char>>,
    pub next: nat,
    pub ids: Seq<Seq<char>>,
}

/// What one status page's resources do to a sweep: it moves to the next page
/// and its ids become those found before together with the page's monitor
/// ids, each once.
pub open spec fn sweep_step(before: SweepView, resources: Seq<Resource>, after: SweepView) -> bool {
    &&& after.pages == before.pages
    &&& after.next == before.next + 1
    &&& after.ids.no_duplicates()
    &&& after.ids.to_set() == before.ids.to_set().union(monitor_ids(resources))
}

/// The monitor ids of all the resources of a run of pages.
pub open spec fn all_monitor_ids(batches: Seq<Seq<Resource>>) -> Set<Seq<char>>
    decreases batches.len(),
{
    if batches.len() == 0 {
        Set::empty()
    } else {
        all_monitor_ids(batches.drop_last()).union(monitor_ids(batches.last()))
    }
}

/// Collects the monitors published on status pages: it names the status page
/// whose resources to fetch next and is told what they were.
pub struct StatusPageSweep {
    pages: Vec<String>,
    next: usize,
    ids: Vec<String>,
}

impl View for StatusPageSweep {
    type V = SweepView;

    closed spec fn view(&self) -> SweepView {
        SweepView { pages: string_views(self.pages@), next: self.next as nat, ids: string_views(self.ids@) }
    }
}

impl StatusPageSweep {
    /// The sweep has not run past its pages and holds no id twice.
    pub open spec fn wf(self) -> bool {
        self@.next <= self@.pages.len() && self@.ids.no_duplicates()
    }

    /// A sweep over `pages`, in their order.
    pub fn new(pages: Vec<StatusPage>) -> (r: Self)
        ensures
            r.wf(),
            r@.pages == pages@.map_values(|p: StatusPage| p.id@),
            r@.next == 0,
            r@.ids == Seq::<Seq<char>>::empty(),
    {
        let mut ids: Vec<String> = Vec::new();
        let mut i: usize = 0;
        while i < pages.len()
            invariant
                i <= pages@.len(),
                string_views(ids@) == pages@.take(i as int).map_values(|p: StatusPage| p.id@),
            decreases pages.len() - i,
        {
            let ghost before = ids@;
            ids.push(pages[i].id.clone());
            proof {
                assert(pages@.take(i + 1) =~= pages@.take(i as int).push(pages@[i as int]));
                assert(string_views(ids@) =~= string_views(before).push(pages@[i as int].id@));
                assert(string_views(ids@) =~= pages@.take(i + 1).map_values(|p: StatusPage| p.id@));
            }
            i = i + 1;
        }
        let r = StatusPageSweep { pages: ids, next: 0, ids: Vec::new() };
        proof {
            assert(pages@.take(pages@.len() as int) =~= pages@);
            assert(r@.ids =~= Seq::<Seq<char>>::empty());
        }
        r
    }

    /// The status page whose resources to fetch next, if any is left.
    pub fn next_page(&self) -> (r: Option<String>)
        requires
            self.wf(),
        ensures
            r is Some <==> self@.next < self@.pages.len(),
            r matches Some(s) ==> s@ == self@.pages[self@.next as int],
    {
        if self.next < self.pages.len() {
            Some(self.pages[self.next].clone())
        } else {
            None
        }
    }

    /// Takes in the resources of the current status page.
    pub fn record(&mut self, resources: &Vec<Resource>)
        requires
            old(self).wf(),
            old(self)@.next < old(self)@.pages.len(),
        ensures
            final(self).wf(),
            sweep_step(old(self)@, resources@, final(self)@),
    {
        let count = self.pages.len();
        assert(self@.pages.len() == count);
        add_monitor_ids(&mut self.ids, resources);
        self.next = self.next + 1;
    }

    /// The monitor ids found, each once.
    pub fn finish(self) -> (r: Vec<String>)
        requires
            self.wf(),
        ensures
            string_views(r@) == self@.ids,
            string_views(r@).no_duplicates(),
    {
        self.ids
    }
}

/// A sweep that starts with no ids and takes in the resources of a run of
/// status pages ends holding every monitor id of those resources, each
/// exactly once, and nothing else.
pub proof fn lemma_sweep_collects(views: Seq<SweepView>, batches: Seq<Seq<Resource>>)
    requires
        views.len() == batches.len() + 1,
        views[0].ids.len() == 0,
        forall|i: int| 0 <= i < batches.len() ==> sweep_step(#[trigger] views[i], batches[i], views[i + 1]),
    ensures
        views.last().ids.no_duplicates(),
        views.last().ids.to_set() == all_monitor_ids(batches),
    decreases batches.len(),
{
    if batches.len() == 0 {
        assert(views.last() == views[0]);
        assert(views[0].ids.to_set() =~= Set::<Seq<char>>::empty());
        assert(views[0].ids.no_duplicates());
    } else {
        let n = batches.len() - 1;
        let front = views.drop_last();
        assert forall|i: int| 0 <= i < batches.drop_last().len() implies sweep_step(#[trigger] front[i], batches.drop_last()[i], front[i + 1]) by {
            assert(front[i] == views[i] && front[i + 1] == views[i + 1]);
            assert(sweep_step(views[i], batches[i], views[i + 1]));
        }
        lemma_sweep_collects(front, batches.drop_last());
        assert(front.last() == views[n]);
        assert(sweep_step(views[n], batches[n], views[n + 1]));
        assert(views.last() == views[n + 1]);
    }
}

} // verus!
