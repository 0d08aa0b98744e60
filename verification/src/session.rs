//! The legend panel's state machine: which datasets are shown, which
//! are still being fetched, and what the host loop should do next.
//!
//! The host performs the actions (HTTP fetches, spawning and
//! despawning plots) and feeds the outcomes back in as events; every
//! decision between them is made here.

use vstd::prelude::*;
use crate::response::{GraphData, GraphList};

verus! {

/// What the host loop is asked to do.
pub enum UiAction {
    /// Nothing this time.
    Idle,
    /// Request the legend from the backend.
    FetchLegend,
    /// Request the dataset at the given route.
    StartFetch(String),
    /// Show the dataset just received.
    AddGraph(GraphData),
    /// Remove the named dataset's plot.
    RemoveGraph(String),
}

/// A name is among the selected ones.
pub open spec fn sel_has(s: Seq<String>, n: Seq<char>) -> bool {
    exists|i: int| 0 <= i < s.len() && (#[trigger] s[i])@ == n
}

/// A name is among those still being fetched.
pub open spec fn fet_has(s: Seq<(String, String)>, n: Seq<char>) -> bool {
    exists|i: int| 0 <= i < s.len() && (#[trigger] s[i]).0@ == n
}

/// The legend panel's retained state.
pub struct Session {
    startup: bool,
    legend: Option<GraphList>,
    selected: Vec<String>,
    fetching: Vec<(String, String)>,
}

impl Session {
    pub closed spec fn spec_startup(&self) -> bool {
        self.startup
    }

    pub closed spec fn spec_legend(&self) -> Option<GraphList> {
        self.legend
    }

    pub closed spec fn spec_selected(&self) -> Seq<String> {
        self.selected@
    }

    pub closed spec fn spec_fetching(&self) -> Seq<(String, String)> {
        self.fetching@
    }

    /// A fresh session: nothing loaded, nothing selected, the first
    /// frame still to come.
    pub fn new() -> (r: Session)
        ensures
            r.spec_startup(),
            r.spec_legend() is None,
            r.spec_selected() =~= Seq::<String>::empty(),
            r.spec_fetching() =~= Seq::<(String, String)>::empty(),
    {
        Session { startup: true, legend: None, selected: Vec::new(), fetching: Vec::new() }
    }

    /// The first frame asks for the legend; every later one asks for
    /// nothing.
    pub fn begin_frame(&mut self) -> (a: UiAction)
        ensures
            !final(self).spec_startup(),
            final(self).spec_legend() == old(self).spec_legend(),
            final(self).spec_selected() == old(self).spec_selected(),
            final(self).spec_fetching() == old(self).spec_fetching(),
            old(self).spec_startup() ==> a is FetchLegend,
            !old(self).spec_startup() ==> a is Idle,
    {
        if self.startup {
            self.startup = false;
            UiAction::FetchLegend
        } else {
            UiAction::Idle
        }
    }

    /// The legend arrived.
    pub fn legend_loaded(&mut self, list: GraphList)
        ensures
            final(self).spec_legend() == Some(list),
            final(self).spec_startup() == old(self).spec_startup(),
            final(self).spec_selected() == old(self).spec_selected(),
            final(self).spec_fetching() == old(self).spec_fetching(),
    {
        self.legend = Some(list);
    }

    /// The legend is on hand once it has arrived.
    pub fn legend(&self) -> (r: &Option<GraphList>)
        ensures
            *r == self.spec_legend(),
    {
        &self.legend
    }

    /// Whether the named dataset is shown.
    pub fn is_selected(&self, name: &String) -> (r: bool)
        ensures
            r == sel_has(self.spec_selected(), name@),
    {
        find_str(&self.selected, name).is_some()
    }

    /// Whether the named dataset is still on its way; its checkbox is
    /// disabled meanwhile.
    pub fn is_fetching(&self, name: &String) -> (r: bool)
        ensures
            r == fet_has(self.spec_fetching(), name@),
    {
        find_pair(&self.fetching, name).is_some()
    }

    /// A click on a dataset's checkbox.  While the dataset is being
    /// fetched the click does nothing.  Otherwise it either unselects
    /// the dataset and asks for its plot to go, or selects it, marks
    /// it fetching, and asks for it to be fetched from `uri`.
    pub fn toggle(&mut self, name: &String, uri: &String) -> (a: UiAction)
        ensures
            final(self).spec_startup() == old(self).spec_startup(),
            final(self).spec_legend() == old(self).spec_legend(),
            fet_has(old(self).spec_fetching(), name@) ==> {
                &&& a is Idle
                &&& final(self).spec_selected() == old(self).spec_selected()
                &&& final(self).spec_fetching() == old(self).spec_fetching()
            },
            !fet_has(old(self).spec_fetching(), name@) && sel_has(
                old(self).spec_selected(),
                name@,
            ) ==> {
                &&& (a matches UiAction::RemoveGraph(n) && n@ == name@)
                &&& exists|i: int|
                    0 <= i < old(self).spec_selected().len()
                        && (#[trigger] old(self).spec_selected()[i])@ == name@
                        && final(self).spec_selected() == old(self).spec_selected().remove(i)
                &&& final(self).spec_fetching() == old(self).spec_fetching()
            },
            !fet_has(old(self).spec_fetching(), name@) && !sel_has(
                old(self).spec_selected(),
                name@,
            ) ==> {
                &&& (a matches UiAction::StartFetch(u) && u@ == uri@)
                &&& final(self).spec_selected().len() == old(self).spec_selected().len() + 1
                &&& final(self).spec_selected() == old(self).spec_selected().push(
                    final(self).spec_selected().last(),
                )
                &&& final(self).spec_selected().last()@ == name@
                &&& final(self).spec_fetching().len() == old(self).spec_fetching().len() + 1
                &&& final(self).spec_fetching() == old(self).spec_fetching().push(
                    final(self).spec_fetching().last(),
                )
                &&& final(self).spec_fetching().last().0@ == name@
                &&& final(self).spec_fetching().last().1@ == uri@
            },
    {
        if find_pair(&self.fetching, name).is_some() {
            return UiAction::Idle;
        }
        match find_str(&self.selected, name) {
            Some(i) => {
                self.selected.remove(i);
                UiAction::RemoveGraph(name.as_str().to_owned())
            },
            None => {
                self.selected.push(name.as_str().to_owned());
                self.fetching.push((name.as_str().to_owned(), uri.as_str().to_owned()));
                UiAction::StartFetch(uri.as_str().to_owned())
            },
        }
    }

    /// The named dataset arrived: it is no longer being fetched, and
    /// the host is asked to show it.
    pub fn fetch_done(&mut self, name: &String, data: GraphData) -> (a: UiAction)
        ensures
            final(self).spec_startup() == old(self).spec_startup(),
            final(self).spec_legend() == old(self).spec_legend(),
            final(self).spec_selected() == old(self).spec_selected(),
            a matches UiAction::AddGraph(d) && d == data,
            fet_has(old(self).spec_fetching(), name@) ==> exists|i: int|
                0 <= i < old(self).spec_fetching().len()
                    && (#[trigger] old(self).spec_fetching()[i]).0@ == name@
                    && final(self).spec_fetching() == old(self).spec_fetching().remove(i),
            !fet_has(old(self).spec_fetching(), name@) ==> final(self).spec_fetching() == old(
                self,
            ).spec_fetching(),
    {
        match find_pair(&self.fetching, name) {
            Some(i) => {
                self.fetching.remove(i);
            },
            None => {},
        }
        UiAction::AddGraph(data)
    }

    /// The named fetch failed: the dataset stays marked as fetching
    /// and its checkbox stays disabled; nothing retries it.
    pub fn fetch_failed(&mut self, _name: &String) -> (a: UiAction)
        ensures
            *final(self) == *old(self),
            a is Idle,
    {
        UiAction::Idle
    }
}

/// The first index carrying the name, if any.
fn find_str(v: &Vec<String>, name: &String) -> (r: Option<usize>)
    ensures
        r is Some <==> sel_has(v@, name@),
        r matches Some(i) ==> i < v@.len() && v@[i as int]@ == name@,
{
    let mut i: usize = 0;
    while i < v.len()
        invariant
            i <= v@.len(),
            forall|j: int| 0 <= j < i ==> (#[trigger] v@[j])@ != name@,
        decreases v@.len() - i,
    {
        if v[i] == *name {
            return Some(i);
        }
        i = i + 1;
    }
    None
}

/// The first index whose name component carries the name, if any.
fn find_pair(v: &Vec<(String, String)>, name: &String) -> (r: Option<usize>)
    ensures
        r is Some <==> fet_has(v@, name@),
        r matches Some(i) ==> i < v@.len() && v@[i as int].0@ == name@,
{
    let mut i: usize = 0;
    while i < v.len()
        invariant
            i <= v@.len(),
            forall|j: int| 0 <= j < i ==> (#[trigger] v@[j]).0@ != name@,
        decreases v@.len() - i,
    {
        if v[i].0 == *name {
            return Some(i);
        }
        i = i + 1;
    }
    None
}

} // verus!
