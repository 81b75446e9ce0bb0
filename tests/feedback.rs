use graph_editor::feedback::Feedback;
use graph_editor::graph::Edge;
use graph_editor::tint::decimal;

fn colours_on() {
    colored::control::set_override(true);
}

#[test]
fn decimal_renders_numbers() {
    assert_eq!(decimal(0), "0");
    assert_eq!(decimal(7), "7");
    assert_eq!(decimal(10), "10");
    assert_eq!(decimal(1234), "1234");
    assert_eq!(decimal(u64::MAX), "18446744073709551615");
}

#[test]
fn format_edge_plain() {
    assert_eq!(Feedback::format_edge(1, 22), "1 <-> 22");
}

#[test]
fn plain_messages() {
    assert_eq!(Feedback::available_nodes(), "Vértices disponíveis:");
    assert_eq!(
        Feedback::edge_dont_exists(),
        "A aresta informada não existe"
    );
}

#[test]
fn red_message_escapes() {
    colours_on();
    assert_eq!(
        Feedback::invalid_option(),
        "\u{1b}[31mPor favor, digite uma opção válida conforme o menu.\u{1b}[0m"
    );
    assert_eq!(
        Feedback::edge_already_exists(),
        "\u{1b}[31mAresta já existe\u{1b}[0m"
    );
}

#[test]
fn green_and_yellow_messages() {
    colours_on();
    assert_eq!(
        Feedback::save_graph_success(),
        "\u{1b}[32mGrafo salvo com sucesso!\u{1b}[0m"
    );
    assert_eq!(
        Feedback::read_code(),
        "\u{1b}[33mDigite o código:\u{1b}[0m"
    );
}

#[test]
fn messages_with_codes_and_words() {
    colours_on();
    assert_eq!(
        Feedback::invalid_weight(),
        "\u{1b}[31mPeso inválido, ele deve ser um inteiro maior que 0\u{1b}[0m"
    );
    assert_eq!(
        Feedback::no_buckle(3),
        "\nO vértice \u{1b}[32m3\u{1b}[0m \u{1b}[31mnão possui\u{1b}[0m um laço"
    );
    assert_eq!(
        Feedback::graph_is_complete(),
        "O grafo \u{1b}[32mé\u{1b}[0m completo"
    );
}

#[test]
fn nth_node_bold_blue() {
    colours_on();
    assert_eq!(
        Feedback::nth_node("Primeiro"),
        "\u{1b}[1;34m* Primeiro vértice *\u{1b}[0m"
    );
}

#[test]
fn buckle_messages() {
    colours_on();
    assert_eq!(
        Feedback::contains_buckle(12),
        "\nO vértice \u{1b}[32m12\u{1b}[0m \u{1b}[36mpossui\u{1b}[0m um laço"
    );
    assert_eq!(
        Feedback::no_buckle(4),
        "\nO vértice \u{1b}[32m4\u{1b}[0m \u{1b}[31mnão possui\u{1b}[0m um laço"
    );
}

#[test]
fn adjacency_messages() {
    colours_on();
    assert_eq!(
        Feedback::adjacent_nodes(1, 2),
        "\nOs vértices \u{1b}[32m1\u{1b}[0m e \u{1b}[32m2\u{1b}[0m \u{1b}[36msão\u{1b}[0m adjacentes."
    );
    assert_eq!(
        Feedback::not_adjacent_nodes(1, 2),
        "\nOs vértices \u{1b}[32m1\u{1b}[0m e \u{1b}[32m2\u{1b}[0m \u{1b}[31mnão são\u{1b}[0m adjacentes."
    );
}

#[test]
fn path_messages() {
    colours_on();
    assert_eq!(
        Feedback::no_path_found(1, 4),
        "\u{1b}[31mNão\u{1b}[0m existe caminho entre o vértice \u{1b}[32m1\u{1b}[0m e o vértice \u{1b}[32m4\u{1b}[0m"
    );
    assert_eq!(
        Feedback::path_size(42),
        "O tamanho do caminho é: \u{1b}[32m42\u{1b}[0m"
    );
    assert_eq!(
        Feedback::path_found(),
        "\u{1b}[32mCaminho encontrado!\u{1b}[0m"
    );
}

#[test]
fn edge_messages() {
    colours_on();
    assert_eq!(
        Feedback::edge_added(Edge {
            from: 1,
            to: 2,
            weight: 1
        }),
        "\u{1b}[32mAresta criada com sucesso\u{1b}[0m\n1 <-> 2"
    );
    assert_eq!(
        Feedback::edge_removed(3, 4),
        "\u{1b}[32mAresta\u{1b}[0m 3 <-> 4 \u{1b}[32mremovida com sucesso\u{1b}[0m"
    );
}

#[test]
fn cycle_messages() {
    colours_on();
    assert_eq!(
        Feedback::cycle_read(&vec![1, 2, 3, 1]),
        "Ciclo digitado: \u{1b}[35m1, 2, 3, 1\u{1b}[0m"
    );
    assert_eq!(
        Feedback::no_cycle_found(),
        "Ciclo \u{1b}[31mnão\u{1b}[0m encontrado"
    );
    assert_eq!(
        Feedback::cycle_found(),
        "\u{1b}[32mCiclo encontrado!\u{1b}[0m"
    );
    assert_eq!(
        Feedback::cycle_read(&vec![]),
        "Ciclo digitado: \u{1b}[35m\u{1b}[0m"
    );
}

#[test]
fn value_read_echo() {
    colours_on();
    assert_eq!(
        Feedback::value_read("abc", "Valor digitado"),
        "Valor digitado: \u{1b}[35mabc\u{1b}[0m"
    );
}

#[test]
fn subgraph_and_complete_messages() {
    colours_on();
    assert_eq!(
        Feedback::is_subgraph(),
        "O grafo informado \u{1b}[32mé\u{1b}[0m subgrafo do atual"
    );
    assert_eq!(
        Feedback::is_not_subgraph(),
        "O grafo informado \u{1b}[31mnão é\u{1b}[0m subgrafo do atual"
    );
    assert_eq!(
        Feedback::graph_is_not_complete(),
        "O grafo \u{1b}[31mnão é\u{1b}[0m completo"
    );
}

#[test]
fn export_messages() {
    colours_on();
    assert_eq!(
        Feedback::graph_exported("grafo.png"),
        "\u{1b}[32mO grafo foi exportado com sucesso!\u{1b}[0m Arquivo: grafo.png"
    );
    assert_eq!(
        Feedback::graph_not_exported(),
        "\u{1b}[31mErro ao exportar grafo\u{1b}[0m\nVerifique se você possui o programa \u{1b}[32mgraphviz\u{1b}[0m (\u{1b}[36mhttps://graphviz.org/\u{1b}[0m) instalado e se é possivel criar arquivos na pasta atual"
    );
}

#[test]
fn remaining_simple_messages() {
    colours_on();
    assert_eq!(
        Feedback::graph_already_weighted(),
        "\u{1b}[31mO grafo já é ponderado\u{1b}[0m"
    );
    assert_eq!(
        Feedback::success_graph_weighted(),
        "\u{1b}[32mGrafo ponderado com sucesso!\u{1b}[0m"
    );
    assert_eq!(
        Feedback::graph_is_not_weighted(),
        "\u{1b}[31mO grafo precisa ser ponderado\u{1b}[0m"
    );
    assert_eq!(
        Feedback::load_graph_success(),
        "\u{1b}[32mGrafo carregado com sucesso!\u{1b}[0m"
    );
    assert_eq!(
        Feedback::read_graph_file_error(),
        "\u{1b}[31mErro ao ler arquivo, verifique se o grafo foi salvo e se o arquivo existe\u{1b}[0m"
    );
    assert_eq!(
        Feedback::save_graph_error(),
        "\u{1b}[31mErro ao salvar arquivo :(\u{1b}[0m"
    );
    assert_eq!(
        Feedback::node_not_found_with_code(),
        "\u{1b}[31mNenhum vértice foi encontrado com esse código, tente digitar outro...\u{1b}[0m"
    );
    assert_eq!(
        Feedback::invalid_code(),
        "\u{1b}[31mPor favor, digite um código válido.\u{1b}[0m"
    );
    assert_eq!(
        Feedback::read_codes(),
        "\u{1b}[33mDigite os códigos separados por virgula:\u{1b}[0m"
    );
    assert_eq!(
        Feedback::invalid_codes(),
        "\u{1b}[31mErro ao ler os códigos, eles devem ser inteiros separados por vírgula\u{1b}[0m"
    );
    assert_eq!(
        Feedback::read_weight(),
        "\u{1b}[33mDigite o peso da aresta:\u{1b}[0m"
    );
    assert!(Feedback::invalid_cycle().starts_with("\u{1b}[31mCertifique-se"));
}
