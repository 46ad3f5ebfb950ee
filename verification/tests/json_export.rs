use utmmmmm::json_export::{export_spec, export_spec_with_clusters};
use utmmmmm::tm::TuringMachineSpec;
use utmmmmm::toy_machines::flip_bits_spec;

fn s(x: &str) -> String {
    x.to_string()
}

fn flip_names() -> (Vec<String>, Vec<String>, Vec<String>, Vec<char>) {
    (
        vec![s("Flip"), s("Done")],
        vec![s("flipping"), s("finished")],
        vec![s("Blank"), s("Zero"), s("One")],
        vec!['_', '0', '1'],
    )
}

#[test]
fn export_flip_bits() {
    let spec = flip_bits_spec();
    let (sn, sd, yn, yc) = flip_names();
    assert_eq!(spec.iter_states().len(), 2);
    let r = export_spec(&spec, "flip", "flips bits", &sn, &sd, &yn, &yc);
    assert_eq!(r.name, "flip");
    assert_eq!(r.description, "flips bits");
    assert_eq!(r.all_states, vec![s("Flip"), s("Done")]);
    assert_eq!(r.all_symbols, vec![s("Blank"), s("Zero"), s("One")]);
    assert_eq!(r.initial, "Flip");
    assert_eq!(r.blank, "Blank");
    assert_eq!(r.accepting_states, vec![s("Done")]);
    assert_eq!(
        r.rules,
        vec![
            (s("Flip"), s("Blank"), (s("Done"), s("Blank"), s("L"))),
            (s("Flip"), s("One"), (s("Flip"), s("Zero"), s("R"))),
            (s("Flip"), s("Zero"), (s("Flip"), s("One"), s("R"))),
        ]
    );
    assert_eq!(r.symbol_chars, vec![(s("Blank"), s("_")), (s("One"), s("1")), (s("Zero"), s("0"))]);
    assert_eq!(r.state_descriptions, vec![(s("Done"), s("finished")), (s("Flip"), s("flipping"))]);
    assert_eq!(r.graph.nodes.len(), 2);
    assert_eq!(r.graph.nodes[0].id, "Flip");
    assert_eq!(r.graph.nodes[1].label, "Done");
    assert!(r.graph.nodes[0].cluster.is_none());
    assert!(r.graph.clusters.is_empty());
    let edges: Vec<(String, String, String, String, Vec<String>)> = r
        .graph
        .edges
        .iter()
        .map(|e| (e.id.clone(), e.source.clone(), e.target.clone(), e.label.clone(), e.symbols.clone()))
        .collect();
    assert_eq!(
        edges,
        vec![
            (s("Flip--_"), s("Flip"), s("Done"), s("_ \u{2192} L"), vec![s("_")]),
            (s("Flip--1"), s("Flip"), s("Flip"), s("1 \u{2192} 0,R"), vec![s("1")]),
            (s("Flip--0"), s("Flip"), s("Flip"), s("0 \u{2192} 1,R"), vec![s("0")]),
        ]
    );
}

#[test]
fn export_merges_rules_of_the_same_effect_into_one_edge() {
    let spec = flip_bits_spec();
    let (sn, sd, yn, _) = flip_names();
    // Both bits shown with the same character: the two rules that flip
    // and move right now have the same effect and share an edge.
    let r = export_spec(&spec, "", "", &sn, &sd, &yn, &vec!['_', 'b', 'b']);
    assert_eq!(r.graph.edges.len(), 2);
    assert_eq!(r.graph.edges[1].id, "Flip--bb");
    assert_eq!(r.graph.edges[1].label, "bb \u{2192} b,R");
    assert_eq!(r.graph.edges[1].symbols, vec![s("b"), s("b")]);
    // With the names of the two bits the same, their rules share a key and
    // the later one stays.
    let yn2 = vec![s("Blank"), s("Bit"), s("Bit")];
    let r = export_spec(&spec, "", "", &sn, &sd, &yn2, &vec!['_', '0', '1']);
    assert_eq!(
        r.rules,
        vec![
            (s("Flip"), s("Bit"), (s("Flip"), s("Bit"), s("R"))),
            (s("Flip"), s("Blank"), (s("Done"), s("Blank"), s("L"))),
        ]
    );
    assert_eq!(r.symbol_chars, vec![(s("Bit"), s("1")), (s("Blank"), s("_"))]);
}

#[test]
fn export_keeps_the_first_label_of_a_cluster() {
    let spec = flip_bits_spec();
    let (sn, sd, yn, yc) = flip_names();
    let clusters = vec![Some((s("c"), s("first"))), Some((s("c"), s("second")))];
    let r = export_spec_with_clusters(&spec, "", "", &sn, &sd, &yn, &yc, &clusters);
    assert_eq!(r.graph.clusters.len(), 1);
    assert_eq!(r.graph.clusters[0].id, "c");
    assert_eq!(r.graph.clusters[0].label, "first");
    assert_eq!(r.graph.nodes[0].cluster, Some(s("c")));
    assert_eq!(r.graph.nodes[1].cluster, Some(s("c")));
}
