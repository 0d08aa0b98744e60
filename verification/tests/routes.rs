use ncho::date::Date;
use ncho::response::{Color, Graph, GraphIndex, GraphList};
use ncho::server::{list_graphs, show_graph, Catalog, ServerError};
use std::collections::HashMap;

fn catalog() -> Catalog {
    Catalog {
        graphs: vec![Graph {
            name: "CSIRO".to_owned(),
            description: "sea level".to_owned(),
            color: Color { r: 0xB1, g: 0xF8, b: 0xF2 },
            points: vec![(Date { year: 1880, month: 1, day: 15 }, -5250)],
        }],
    }
}

#[test]
fn legend_lists_every_dataset_with_its_route() {
    let list = list_graphs(&catalog());
    assert_eq!(list.graphs.len(), 1);
    assert_eq!(list.graphs[0].name, "CSIRO");
    assert_eq!(list.graphs[0].uri, "/api/graphs/CSIRO");
    assert_eq!(list.graphs[0].description, "sea level");
    assert_eq!(list.graphs[0].color, Color { r: 0xB1, g: 0xF8, b: 0xF2 });
}

#[test]
fn a_known_graph_is_served_as_held() {
    let d = show_graph(&catalog(), &"CSIRO".to_owned()).unwrap();
    assert_eq!(d.name, "CSIRO");
    assert_eq!(d.color, Color { r: 0xB1, g: 0xF8, b: 0xF2 });
    assert_eq!(d.points, vec![(Date { year: 1880, month: 1, day: 15 }, -5250)]);
}

#[test]
fn the_dev_graph_stands_in_when_absent() {
    let d = show_graph(&catalog(), &"Dev".to_owned()).unwrap();
    assert_eq!(d.name, "Dev");
    assert_eq!(d.color, Color { r: 0xEA, g: 0xFD, b: 0xCF });
    assert_eq!(
        d.points,
        vec![
            (Date { year: 0, month: 1, day: 1 }, 0),
            (Date { year: 0, month: 1, day: 2 }, 1000),
            (Date { year: 0, month: 1, day: 3 }, 2000),
        ]
    );
}

#[test]
fn the_legend_can_be_indexed_by_name() {
    let GraphList { graphs } = list_graphs(&catalog());
    let mut by_name = HashMap::new();
    for s in graphs {
        by_name.insert(s.name.clone(), s);
    }
    let index = GraphIndex { graphs: by_name };
    assert_eq!(index.graphs["CSIRO"].uri, "/api/graphs/CSIRO");
}

#[test]
fn an_unknown_graph_is_not_found() {
    let r = show_graph(&catalog(), &"Nessie".to_owned());
    match r {
        Err(e @ ServerError::NotFound(_)) => {
            assert_eq!(e.message(), "no graph with name Nessie");
        }
        _ => panic!("expected the not-found error"),
    }
}
