//! The backend's two dataset routes: the legend listing, and one
//! dataset by name (with the built-in development dataset as fallback).
//!
//! Reading the catalog from disk and serving the results over HTTP are
//! the host's business; the decisions are all here.

use vstd::prelude::*;
use vstd::string::StringExecFns;
use crate::date::Date;
use crate::response::{Color, Graph, GraphData, GraphList, GraphSummary};

verus! {

/// The datasets the backend holds, in serving order.
#[derive(Debug)]
pub struct Catalog {
    pub graphs: Vec<Graph>,
}

/// Why a dataset request fails.
#[derive(Debug)]
pub enum ServerError {
    /// No dataset carries the requested name.
    NotFound(String),
}

impl ServerError {
    /// The error as the response body says it.
    pub fn message(&self) -> (r: String)
        ensures
            self matches ServerError::NotFound(n) ==> r@ == "no graph with name "@ + n@,
    {
        match self {
            ServerError::NotFound(n) => {
                let m = "no graph with name ".to_owned();
                m.concat(n.as_str())
            },
        }
    }
}

/// A graph named `name` sits at index `i`, and at no earlier one.
pub open spec fn found_at(s: Seq<Graph>, name: Seq<char>, i: int) -> bool {
    &&& 0 <= i < s.len()
    &&& s[i].name@ == name
    &&& forall|j: int| 0 <= j < i ==> (#[trigger] s[j]).name@ != name
}

/// Some graph carries the name.
pub open spec fn has_graph(s: Seq<Graph>, name: Seq<char>) -> bool {
    exists|i: int| 0 <= i < s.len() && (#[trigger] s[i]).name@ == name
}

/// The development dataset served when "Dev" is asked for and absent:
/// three points on the first days of year zero, one unit apart.
pub open spec fn dev_points() -> Seq<(Date, i64)> {
    seq![
        (Date { year: 0, month: 1, day: 1 }, 0i64),
        (Date { year: 0, month: 1, day: 2 }, 1000i64),
        (Date { year: 0, month: 1, day: 3 }, 2000i64),
    ]
}

/// The legend: one summary per dataset, in catalog order, each with
/// its name, its route under `/api/graphs/`, its description and its
/// color.
pub fn list_graphs(cat: &Catalog) -> (r: GraphList)
    ensures
        r.graphs@.len() == cat.graphs@.len(),
        forall|i: int|
            0 <= i < cat.graphs@.len() ==> {
                &&& (#[trigger] r.graphs@[i]).name@ == cat.graphs@[i].name@
                &&& r.graphs@[i].uri@ == "/api/graphs/"@ + cat.graphs@[i].name@
                &&& r.graphs@[i].description@ == cat.graphs@[i].description@
                &&& r.graphs@[i].color == cat.graphs@[i].color
            },
{
    let mut list: Vec<GraphSummary> = Vec::new();
    let mut i: usize = 0;
    while i < cat.graphs.len()
        invariant
            i <= cat.graphs@.len(),
            list@.len() == i,
            forall|j: int|
                0 <= j < i ==> {
                    &&& (#[trigger] list@[j]).name@ == cat.graphs@[j].name@
                    &&& list@[j].uri@ == "/api/graphs/"@ + cat.graphs@[j].name@
                    &&& list@[j].description@ == cat.graphs@[j].description@
                    &&& list@[j].color == cat.graphs@[j].color
                },
        decreases cat.graphs@.len() - i,
    {
        let g = &cat.graphs[i];
        let base = "/api/graphs/".to_owned();
        list.push(
            GraphSummary {
                name: clone_string(&g.name),
                uri: base.concat(g.name.as_str()),
                description: clone_string(&g.description),
                color: g.color,
            },
        );
        i = i + 1;
    }
    GraphList { graphs: list }
}

/// One dataset by name: the first catalog entry carrying it; the
/// development dataset when "Dev" is asked for and absent; otherwise
/// the not-found error naming what was asked.
pub fn show_graph(cat: &Catalog, name: &String) -> (r: Result<GraphData, ServerError>)
    ensures
        has_graph(cat.graphs@, name@) ==> (r matches Ok(d) && exists|i: int|
            #[trigger] found_at(cat.graphs@, name@, i) && d.name@ == cat.graphs@[i].name@
                && d.color == cat.graphs@[i].color && d.points@ == cat.graphs@[i].points@),
        !has_graph(cat.graphs@, name@) && name@ == "Dev"@ ==> (r matches Ok(d) && d.name@ == "Dev"@
            && d.color == (Color { r: 0xEA, g: 0xFD, b: 0xCF }) && d.points@ =~= dev_points()),
        !has_graph(cat.graphs@, name@) && name@ != "Dev"@ ==> (r matches Err(
            ServerError::NotFound(n),
        ) && n@ == name@),
{
    let mut i: usize = 0;
    while i < cat.graphs.len()
        invariant
            i <= cat.graphs@.len(),
            forall|j: int| 0 <= j < i ==> (#[trigger] cat.graphs@[j]).name@ != name@,
        decreases cat.graphs@.len() - i,
    {
        let g = &cat.graphs[i];
        if g.name == *name {
            proof {
                assert(found_at(cat.graphs@, name@, i as int));
            }
            return Ok(
                GraphData {
                    name: clone_string(&g.name),
                    color: g.color,
                    points: copy_points(&g.points),
                },
            );
        }
        i = i + 1;
    }
    let dev = "Dev".to_owned();
    if *name == dev {
        let mut points: Vec<(Date, i64)> = Vec::new();
        points.push((Date { year: 0, month: 1, day: 1 }, 0));
        points.push((Date { year: 0, month: 1, day: 2 }, 1000));
        points.push((Date { year: 0, month: 1, day: 3 }, 2000));
        Ok(GraphData { name: clone_string(name), color: Color { r: 0xEA, g: 0xFD, b: 0xCF }, points })
    } else {
        Err(ServerError::NotFound(clone_string(name)))
    }
}

/// A fresh string with the same characters.
fn clone_string(s: &String) -> (r: String)
    ensures
        r@ == s@,
{
    s.as_str().to_owned()
}

/// A fresh point list with the same points.
fn copy_points(points: &Vec<(Date, i64)>) -> (r: Vec<(Date, i64)>)
    ensures
        r@ =~= points@,
{
    let mut v: Vec<(Date, i64)> = Vec::new();
    let mut i: usize = 0;
    while i < points.len()
        invariant
            i <= points@.len(),
            v@ =~= points@.take(i as int),
        decreases points@.len() - i,
    {
        v.push(points[i]);
        proof {
            assert(points@.take(i + 1).drop_last() =~= points@.take(i as int));
            assert(points@.take(i + 1) =~= points@.take(i as int).push(points@[i as int]));
        }
        i = i + 1;
    }
    proof {
        assert(points@.take(points@.len() as int) =~= points@);
    }
    v
}

} // verus!
