use graph_editor::display::{format_available_nodes, format_edges, get_string_path};
use graph_editor::graph::{Edge, Graph, Node};
use graph_editor::menu::{parse_option, MenuOpt};

fn node(code: usize, name: &str) -> Node {
    Node {
        code,
        name: name.to_string(),
        local_type: "Parque".to_string(),
    }
}

#[test]
fn parse_option_keys() {
    assert_eq!(parse_option("a"), Some(MenuOpt::A));
    assert_eq!(parse_option("j"), Some(MenuOpt::J));
    assert_eq!(parse_option("n"), Some(MenuOpt::No));
    assert_eq!(parse_option("l"), Some(MenuOpt::Load));
    assert_eq!(parse_option("v"), Some(MenuOpt::Visualize));
    assert_eq!(parse_option("s"), Some(MenuOpt::Save));
    assert_eq!(parse_option("q"), Some(MenuOpt::Exit));
    assert_eq!(parse_option("x"), None);
    assert_eq!(parse_option(""), None);
    assert_eq!(parse_option("ab"), None);
    assert_eq!(parse_option("A"), None);
}

fn tinted(code: &str, text: &str) -> String {
    format!("\u{1b}[{code}m{text}\u{1b}[0m")
}

fn shown(code: usize, name: &str) -> String {
    format!(
        "{}Código: {}, Nome: {}, Tipo do local: {}{}",
        tinted("32", "|"),
        tinted("36", &code.to_string()),
        tinted("36", name),
        tinted("36", "Parque"),
        tinted("32", "|")
    )
}

#[test]
fn node_render_coloured() {
    colored::control::set_override(true);
    let n = node(3, "Centro");
    assert_eq!(
        n.render(),
        "\u{1b}[32m|\u{1b}[0mCódigo: \u{1b}[36m3\u{1b}[0m, Nome: \u{1b}[36mCentro\u{1b}[0m, Tipo do local: \u{1b}[36mParque\u{1b}[0m\u{1b}[32m|\u{1b}[0m"
    );
}

#[test]
fn edges_render() {
    colored::control::set_override(true);
    let edges = vec![
        Edge {
            from: 1,
            to: 2,
            weight: 5,
        },
        Edge {
            from: 2,
            to: 3,
            weight: 1,
        },
    ];
    let one = tinted("36", "1");
    let two = tinted("36", "2");
    let three = tinted("36", "3");
    assert_eq!(
        format_edges(false, &edges),
        format!("{one} -> {two}\n{two} -> {three}")
    );
    assert_eq!(
        format_edges(true, &edges),
        format!("{one} -> {two} Peso = 5\n{two} -> {three} Peso = 1")
    );
    assert_eq!(format_edges(true, &vec![]), "");
}

#[test]
fn graph_render() {
    colored::control::set_override(true);
    let g = Graph {
        is_weighted: false,
        size: 2,
        nodes: vec![node(1, "A"), node(2, "B")],
        edges: vec![Edge {
            from: 1,
            to: 2,
            weight: 1,
        }],
    };
    assert_eq!(
        g.render(),
        format!(
            "{}\n{}\n\n{} -> {}",
            shown(1, "A"),
            shown(2, "B"),
            tinted("36", "1"),
            tinted("36", "2")
        )
    );
    assert_eq!(
        format_available_nodes(&g),
        format!(
            "\n{} - {}\n{} - {}",
            tinted("1;35", "1"),
            shown(1, "A"),
            tinted("1;35", "2"),
            shown(2, "B")
        )
    );
}

#[test]
fn path_text() {
    let a = node(1, "A");
    let b = node(20, "B");
    assert_eq!(get_string_path(vec![&a, &b]), "[1] A <-> [20] B");
    assert_eq!(get_string_path(vec![&a]), "[1] A");
    assert_eq!(get_string_path(vec![]), "");
}
