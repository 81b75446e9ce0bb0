//! The messages that report the outcome of each operation.

use crate::graph::Edge;
use crate::tint::{
    decimal, decimal_of, lemma_decimal_plain, lemma_plain_concat, paint, paint_bold, paint_number,
    painted, Tint,
};
use vstd::prelude::*;

verus! {

/// The console messages of the editor. Each message that is coloured is
/// stated with `painted`: it holds its text either plain or between the
/// colour's escape sequences, as the terminal settings decide.
pub struct Feedback;

impl Feedback {
    /// Asks for an option of the menu again.
    pub fn invalid_option() -> (r: String)
        ensures
            painted(r@, "Por favor, digite uma opção válida conforme o menu."@, Tint::Red, false),
    {
        proof {
            reveal_strlit("Por favor, digite uma opção válida conforme o menu.");
        }
        paint("Por favor, digite uma opção válida conforme o menu.", Tint::Red)
    }

    /// No vertex has the code that was typed.
    pub fn node_not_found_with_code() -> (r: String)
        ensures
            painted(
                r@,
                "Nenhum vértice foi encontrado com esse código, tente digitar outro..."@,
                Tint::Red,
                false,
            ),
    {
        proof {
            reveal_strlit("Nenhum vértice foi encontrado com esse código, tente digitar outro...");
        }
        paint("Nenhum vértice foi encontrado com esse código, tente digitar outro...", Tint::Red)
    }

    /// The code typed is not a number.
    pub fn invalid_code() -> (r: String)
        ensures
            painted(r@, "Por favor, digite um código válido."@, Tint::Red, false),
    {
        proof {
            reveal_strlit("Por favor, digite um código válido.");
        }
        paint("Por favor, digite um código válido.", Tint::Red)
    }

    /// Asks for a vertex code.
    pub fn read_code() -> (r: String)
        ensures
            painted(r@, "Digite o código:"@, Tint::Yellow, false),
    {
        proof {
            reveal_strlit("Digite o código:");
        }
        paint("Digite o código:", Tint::Yellow)
    }

    /// Asks for a list of codes separated by commas.
    pub fn read_codes() -> (r: String)
        ensures
            painted(r@, "Digite os códigos separados por virgula:"@, Tint::Yellow, false),
    {
        proof {
            reveal_strlit("Digite os códigos separados por virgula:");
        }
        paint("Digite os códigos separados por virgula:", Tint::Yellow)
    }

    /// The list of codes typed could not be read.
    pub fn invalid_codes() -> (r: String)
        ensures
            painted(
                r@,
                "Erro ao ler os códigos, eles devem ser inteiros separados por vírgula"@,
                Tint::Red,
                false,
            ),
    {
        proof {
            reveal_strlit("Erro ao ler os códigos, eles devem ser inteiros separados por vírgula");
        }
        paint("Erro ao ler os códigos, eles devem ser inteiros separados por vírgula", Tint::Red)
    }

    /// Asks for the weight of an edge.
    pub fn read_weight() -> (r: String)
        ensures
            painted(r@, "Digite o peso da aresta:"@, Tint::Yellow, false),
    {
        proof {
            reveal_strlit("Digite o peso da aresta:");
        }
        paint("Digite o peso da aresta:", Tint::Yellow)
    }

    /// The weight typed is not a positive integer.
    pub fn invalid_weight() -> (r: String)
        ensures
            painted(r@, "Peso inválido, ele deve ser um inteiro maior que 0"@, Tint::Red, false),
    {
        proof {
            reveal_strlit("Peso inválido, ele deve ser um inteiro maior que 0");
        }
        paint("Peso inválido, ele deve ser um inteiro maior que 0", Tint::Red)
    }

    /// The codes typed do not have the shape of a cycle.
    pub fn invalid_cycle() -> (r: String)
        ensures
            painted(
                r@,
                "Certifique-se de digitar um ciclo válido, o primeiro e o último elemento precisam ser iguais, e não pode haver elementos repetidos entre eles"@,
                Tint::Red,
                false,
            ),
    {
        proof {
            reveal_strlit("Certifique-se de digitar um ciclo válido, o primeiro e o último elemento precisam ser iguais, e não pode haver elementos repetidos entre eles");
        }
        paint("Certifique-se de digitar um ciclo válido, o primeiro e o último elemento precisam ser iguais, e não pode haver elementos repetidos entre eles", Tint::Red)
    }

    /// The stored graph was loaded.
    pub fn load_graph_success() -> (r: String)
        ensures
            painted(r@, "Grafo carregado com sucesso!"@, Tint::Green, false),
    {
        proof {
            reveal_strlit("Grafo carregado com sucesso!");
        }
        paint("Grafo carregado com sucesso!", Tint::Green)
    }

    /// The stored graph could not be read.
    pub fn read_graph_file_error() -> (r: String)
        ensures
            painted(
                r@,
                "Erro ao ler arquivo, verifique se o grafo foi salvo e se o arquivo existe"@,
                Tint::Red,
                false,
            ),
    {
        proof {
            reveal_strlit("Erro ao ler arquivo, verifique se o grafo foi salvo e se o arquivo existe");
        }
        paint("Erro ao ler arquivo, verifique se o grafo foi salvo e se o arquivo existe", Tint::Red)
    }

    /// The graph was stored.
    pub fn save_graph_success() -> (r: String)
        ensures
            painted(r@, "Grafo salvo com sucesso!"@, Tint::Green, false),
    {
        proof {
            reveal_strlit("Grafo salvo com sucesso!");
        }
        paint("Grafo salvo com sucesso!", Tint::Green)
    }

    /// The graph could not be stored.
    pub fn save_graph_error() -> (r: String)
        ensures
            painted(r@, "Erro ao salvar arquivo :("@, Tint::Red, false),
    {
        proof {
            reveal_strlit("Erro ao salvar arquivo :(");
        }
        paint("Erro ao salvar arquivo :(", Tint::Red)
    }

    /// A path was found.
    pub fn path_found() -> (r: String)
        ensures
            painted(r@, "Caminho encontrado!"@, Tint::Green, false),
    {
        proof {
            reveal_strlit("Caminho encontrado!");
        }
        paint("Caminho encontrado!", Tint::Green)
    }

    /// The cycle was found in the graph.
    pub fn cycle_found() -> (r: String)
        ensures
            painted(r@, "Ciclo encontrado!"@, Tint::Green, false),
    {
        proof {
            reveal_strlit("Ciclo encontrado!");
        }
        paint("Ciclo encontrado!", Tint::Green)
    }

    /// The edge to add is already there.
    pub fn edge_already_exists() -> (r: String)
        ensures
            painted(r@, "Aresta já existe"@, Tint::Red, false),
    {
        proof {
            reveal_strlit("Aresta já existe");
        }
        paint("Aresta já existe", Tint::Red)
    }

    /// The graph is weighted now.
    pub fn success_graph_weighted() -> (r: String)
        ensures
            painted(r@, "Grafo ponderado com sucesso!"@, Tint::Green, false),
    {
        proof {
            reveal_strlit("Grafo ponderado com sucesso!");
        }
        paint("Grafo ponderado com sucesso!", Tint::Green)
    }

    /// The graph was weighted already.
    pub fn graph_already_weighted() -> (r: String)
        ensures
            painted(r@, "O grafo já é ponderado"@, Tint::Red, false),
    {
        proof {
            reveal_strlit("O grafo já é ponderado");
        }
        paint("O grafo já é ponderado", Tint::Red)
    }

    /// The operation needs a weighted graph.
    pub fn graph_is_not_weighted() -> (r: String)
        ensures
            painted(r@, "O grafo precisa ser ponderado"@, Tint::Red, false),
    {
        proof {
            reveal_strlit("O grafo precisa ser ponderado");
        }
        paint("O grafo precisa ser ponderado", Tint::Red)
    }

    /// The cycle was not found in the graph.
    pub fn no_cycle_found() -> (r: String)
        ensures
            exists|m: Seq<char>|
                #[trigger] painted(m, "não"@, Tint::Red, false)
                    && r@ == "Ciclo "@ + m + " encontrado"@,
    {
        proof {
            reveal_strlit("não");
        }
        let m = paint("não", Tint::Red);
        let mut r = String::from_str("Ciclo ");
        r.append(m.as_str());
        r.append(" encontrado");
        assert(painted(m@, "não"@, Tint::Red, false));
        r
    }

    /// The graph is complete.
    pub fn graph_is_complete() -> (r: String)
        ensures
            exists|m: Seq<char>|
                #[trigger] painted(m, "é"@, Tint::Green, false)
                    && r@ == "O grafo "@ + m + " completo"@,
    {
        proof {
            reveal_strlit("é");
        }
        let m = paint("é", Tint::Green);
        let mut r = String::from_str("O grafo ");
        r.append(m.as_str());
        r.append(" completo");
        assert(painted(m@, "é"@, Tint::Green, false));
        r
    }

    /// The graph is not complete.
    pub fn graph_is_not_complete() -> (r: String)
        ensures
            exists|m: Seq<char>|
                #[trigger] painted(m, "não é"@, Tint::Red, false)
                    && r@ == "O grafo "@ + m + " completo"@,
    {
        proof {
            reveal_strlit("não é");
        }
        let m = paint("não é", Tint::Red);
        let mut r = String::from_str("O grafo ");
        r.append(m.as_str());
        r.append(" completo");
        assert(painted(m@, "não é"@, Tint::Red, false));
        r
    }

    /// The graph typed is a subgraph of this one.
    pub fn is_subgraph() -> (r: String)
        ensures
            exists|m: Seq<char>|
                #[trigger] painted(m, "é"@, Tint::Green, false)
                    && r@ == "O grafo informado "@ + m + " subgrafo do atual"@,
    {
        proof {
            reveal_strlit("é");
        }
        let m = paint("é", Tint::Green);
        let mut r = String::from_str("O grafo informado ");
        r.append(m.as_str());
        r.append(" subgrafo do atual");
        assert(painted(m@, "é"@, Tint::Green, false));
        r
    }

    /// The graph typed is not a subgraph of this one.
    pub fn is_not_subgraph() -> (r: String)
        ensures
            exists|m: Seq<char>|
                #[trigger] painted(m, "não é"@, Tint::Red, false)
                    && r@ == "O grafo informado "@ + m + " subgrafo do atual"@,
    {
        proof {
            reveal_strlit("não é");
        }
        let m = paint("não é", Tint::Red);
        let mut r = String::from_str("O grafo informado ");
        r.append(m.as_str());
        r.append(" subgrafo do atual");
        assert(painted(m@, "não é"@, Tint::Red, false));
        r
    }

    /// The vertex has no loop.
    pub fn no_buckle(code: usize) -> (r: String)
        ensures
            exists|c: Seq<char>, m: Seq<char>|
                #[trigger] painted(c, decimal_of(code as nat), Tint::Green, false) && #[trigger] painted(
                    m,
                    "não possui"@,
                    Tint::Red,
                    false,
                ) && r@ == "\nO vértice "@ + c + " "@ + m + " um laço"@,
    {
        proof {
            reveal_strlit("não possui");
        }
        let c = paint_number(code as u64, Tint::Green);
        let m = paint("não possui", Tint::Red);
        let mut r = String::from_str("\nO vértice ");
        r.append(c.as_str());
        r.append(" ");
        r.append(m.as_str());
        r.append(" um laço");
        r
    }

    /// The vertex has a loop.
    pub fn contains_buckle(code: usize) -> (r: String)
        ensures
            exists|c: Seq<char>, m: Seq<char>|
                #[trigger] painted(c, decimal_of(code as nat), Tint::Green, false) && #[trigger] painted(
                    m,
                    "possui"@,
                    Tint::Cyan,
                    false,
                ) && r@ == "\nO vértice "@ + c + " "@ + m + " um laço"@,
    {
        proof {
            reveal_strlit("possui");
        }
        let c = paint_number(code as u64, Tint::Green);
        let m = paint("possui", Tint::Cyan);
        let mut r = String::from_str("\nO vértice ");
        r.append(c.as_str());
        r.append(" ");
        r.append(m.as_str());
        r.append(" um laço");
        r
    }

    /// The two vertices are adjacent.
    pub fn adjacent_nodes(code1: usize, code2: usize) -> (r: String)
        ensures
            exists|c1: Seq<char>, c2: Seq<char>, m: Seq<char>|
                #[trigger] painted(c1, decimal_of(code1 as nat), Tint::Green, false) && #[trigger] painted(
                    c2,
                    decimal_of(code2 as nat),
                    Tint::Green,
                    false,
                ) && #[trigger] painted(m, "são"@, Tint::Cyan, false) && r@ == "\nOs vértices "@
                    + c1 + " e "@ + c2 + " "@ + m + " adjacentes."@,
    {
        proof {
            reveal_strlit("são");
        }
        let c1 = paint_number(code1 as u64, Tint::Green);
        let c2 = paint_number(code2 as u64, Tint::Green);
        let m = paint("são", Tint::Cyan);
        let mut r = String::from_str("\nOs vértices ");
        r.append(c1.as_str());
        r.append(" e ");
        r.append(c2.as_str());
        r.append(" ");
        r.append(m.as_str());
        r.append(" adjacentes.");
        r
    }

    /// The two vertices are not adjacent.
    pub fn not_adjacent_nodes(code1: usize, code2: usize) -> (r: String)
        ensures
            exists|c1: Seq<char>, c2: Seq<char>, m: Seq<char>|
                #[trigger] painted(c1, decimal_of(code1 as nat), Tint::Green, false) && #[trigger] painted(
                    c2,
                    decimal_of(code2 as nat),
                    Tint::Green,
                    false,
                ) && #[trigger] painted(m, "não são"@, Tint::Red, false) && r@ == "\nOs vértices "@
                    + c1 + " e "@ + c2 + " "@ + m + " adjacentes."@,
    {
        proof {
            reveal_strlit("não são");
        }
        let c1 = paint_number(code1 as u64, Tint::Green);
        let c2 = paint_number(code2 as u64, Tint::Green);
        let m = paint("não são", Tint::Red);
        let mut r = String::from_str("\nOs vértices ");
        r.append(c1.as_str());
        r.append(" e ");
        r.append(c2.as_str());
        r.append(" ");
        r.append(m.as_str());
        r.append(" adjacentes.");
        r
    }

    /// Echoes a value that was typed, after its label.
    pub fn value_read(value: &str, text: &str) -> (r: String)
        ensures
            r@.len() >= text@.len() + 2,
            r@.take(text@.len() + 2int) == text@ + ": "@,
            !value@.contains('\x1b') ==> painted(
                r@.skip(text@.len() + 2int),
                value@,
                Tint::Magenta,
                false,
            ),
    {
        let v = paint(value, Tint::Magenta);
        let mut r = String::from_str(text);
        r.append(": ");
        r.append(v.as_str());
        proof {
            reveal_strlit(": ");
            assert(r@.take(text@.len() + 2int) =~= text@ + ": "@);
            assert(r@.skip(text@.len() + 2int) =~= v@);
        }
        r
    }

    /// Echoes the cycle that was typed, its codes separated by commas.
    pub fn cycle_read(cycle: &Vec<usize>) -> (r: String)
        ensures
            exists|v: Seq<char>|
                #[trigger] painted(v, joined_codes(cycle@), Tint::Magenta, false) && r@
                    == "Ciclo digitado: "@ + v,
    {
        let codes = join_codes(cycle);
        let v = paint(codes.as_str(), Tint::Magenta);
        let mut r = String::from_str("Ciclo digitado: ");
        r.append(v.as_str());
        r
    }

    /// The heading over the reading of the `num`-th vertex.
    pub fn nth_node(num: &str) -> (r: String)
        ensures
            !num@.contains('\x1b') ==> painted(r@, "* "@ + num@ + " vértice *"@, Tint::Blue, true),
    {
        let mut msg = String::from_str("* ");
        msg.append(num);
        msg.append(" vértice *");
        proof {
            reveal_strlit("* ");
            reveal_strlit(" vértice *");
            if !num@.contains('\x1b') {
                lemma_plain_concat("* "@, num@);
                lemma_plain_concat("* "@ + num@, " vértice *"@);
            }
        }
        paint_bold(msg.as_str(), Tint::Blue)
    }

    /// The heading over the list of vertices.
    pub fn available_nodes() -> (r: String)
        ensures
            r@ == "Vértices disponíveis:"@,
    {
        String::from_str("Vértices disponíveis:")
    }

    /// No path joins the two vertices.
    pub fn no_path_found(code1: usize, code2: usize) -> (r: String)
        ensures
            exists|m: Seq<char>, c1: Seq<char>, c2: Seq<char>|
                #[trigger] painted(m, "Não"@, Tint::Red, false) && #[trigger] painted(
                    c1,
                    decimal_of(code1 as nat),
                    Tint::Green,
                    false,
                ) && #[trigger] painted(c2, decimal_of(code2 as nat), Tint::Green, false) && r@ == m
                    + " existe caminho entre o vértice "@ + c1 + " e o vértice "@ + c2,
    {
        proof {
            reveal_strlit("Não");
        }
        let m = paint("Não", Tint::Red);
        let c1 = paint_number(code1 as u64, Tint::Green);
        let c2 = paint_number(code2 as u64, Tint::Green);
        let mut r = m;
        r.append(" existe caminho entre o vértice ");
        r.append(c1.as_str());
        r.append(" e o vértice ");
        r.append(c2.as_str());
        r
    }

    /// The edge was created; the message shows its two ends.
    pub fn edge_added(edge: Edge) -> (r: String)
        ensures
            exists|m: Seq<char>|
                #[trigger] painted(m, "Aresta criada com sucesso"@, Tint::Green, false)
                    && r@ == m
                    + "\n"@ + edge_text(edge.from, edge.to),
    {
        proof {
            reveal_strlit("Aresta criada com sucesso");
        }
        let mut r = paint("Aresta criada com sucesso", Tint::Green);
        r.append("\n");
        let e = Self::format_edge(edge.from, edge.to);
        r.append(e.as_str());
        r
    }

    /// The edge between the two vertices was removed.
    pub fn edge_removed(edge1: usize, edge2: usize) -> (r: String)
        ensures
            exists|a: Seq<char>, b: Seq<char>|
                #[trigger] painted(a, "Aresta"@, Tint::Green, false) && #[trigger] painted(
                    b,
                    "removida com sucesso"@,
                    Tint::Green,
                    false,
                ) && r@ == a + " "@ + edge_text(edge1, edge2) + " "@ + b,
    {
        proof {
            reveal_strlit("Aresta");
            reveal_strlit("removida com sucesso");
        }
        let mut r = paint("Aresta", Tint::Green);
        r.append(" ");
        let e = Self::format_edge(edge1, edge2);
        r.append(e.as_str());
        r.append(" ");
        let b = paint("removida com sucesso", Tint::Green);
        r.append(b.as_str());
        r
    }

    /// The edge to remove is not there.
    pub fn edge_dont_exists() -> (r: String)
        ensures
            r@ == "A aresta informada não existe"@,
    {
        String::from_str("A aresta informada não existe")
    }

    /// The two ends of an edge.
    pub fn format_edge(edge1: usize, edge2: usize) -> (r: String)
        ensures
            r@ == edge_text(edge1, edge2),
    {
        let mut r = decimal(edge1 as u64);
        r.append(" <-> ");
        let b = decimal(edge2 as u64);
        r.append(b.as_str());
        proof {
            reveal_strlit(" <-> ");
        }
        r
    }

    /// The cost of a path.
    pub fn path_size(size: u64) -> (r: String)
        ensures
            exists|c: Seq<char>|
                #[trigger] painted(c, decimal_of(size as nat), Tint::Green, false) && r@
                    == "O tamanho do caminho é: "@ + c,
    {
        let c = paint_number(size, Tint::Green);
        let mut r = String::from_str("O tamanho do caminho é: ");
        r.append(c.as_str());
        r
    }

    /// The graph was exported to the file `path`.
    pub fn graph_exported(path: &str) -> (r: String)
        ensures
            exists|m: Seq<char>|
                #[trigger] painted(m, "O grafo foi exportado com sucesso!"@, Tint::Green, false) && r@
                    == m + " Arquivo: "@ + path@,
    {
        proof {
            reveal_strlit("O grafo foi exportado com sucesso!");
        }
        let mut r = paint("O grafo foi exportado com sucesso!", Tint::Green);
        r.append(" Arquivo: ");
        r.append(path);
        r
    }

    /// The graph could not be exported; the message names the program that
    /// is needed.
    pub fn graph_not_exported() -> (r: String)
        ensures
            exists|a: Seq<char>, b: Seq<char>, c: Seq<char>|
                #[trigger] painted(a, "Erro ao exportar grafo"@, Tint::Red, false) && #[trigger] painted(
                    b,
                    "graphviz"@,
                    Tint::Green,
                    false,
                ) && #[trigger] painted(c, "https://graphviz.org/"@, Tint::Cyan, false) && r@ == a
                    + "\nVerifique se você possui o programa "@ + b + " ("@ + c
                    + ") instalado e se é possivel criar arquivos na pasta atual"@,
    {
        proof {
            reveal_strlit("Erro ao exportar grafo");
            reveal_strlit("graphviz");
            reveal_strlit("https://graphviz.org/");
        }
        let mut r = paint("Erro ao exportar grafo", Tint::Red);
        r.append("\nVerifique se você possui o programa ");
        let b = paint("graphviz", Tint::Green);
        r.append(b.as_str());
        r.append(" (");
        let c = paint("https://graphviz.org/", Tint::Cyan);
        r.append(c.as_str());
        r.append(") instalado e se é possivel criar arquivos na pasta atual");
        r
    }
}

/// The two ends of an edge, as `format_edge` writes them.
pub open spec fn edge_text(a: usize, b: usize) -> Seq<char> {
    decimal_of(a as nat) + seq![' ', '<', '-', '>', ' '] + decimal_of(b as nat)
}

/// Codes in decimal, separated by a comma and a space.
pub open spec fn joined_codes(s: Seq<usize>) -> Seq<char>
    decreases s.len(),
{
    if s.len() == 0 {
        Seq::empty()
    } else if s.len() == 1 {
        decimal_of(s[0] as nat)
    } else {
        joined_codes(s.drop_last()) + seq![',', ' '] + decimal_of(s.last() as nat)
    }
}

fn join_codes(codes: &Vec<usize>) -> (r: String)
    ensures
        r@ == joined_codes(codes@),
        !r@.contains('\x1b'),
{
    let mut r = String::new();
    let mut i: usize = 0;
    proof {
        reveal_strlit(", ");
        assert(codes@.take(0) =~= Seq::<usize>::empty());
    }
    while i < codes.len()
        invariant
            i <= codes@.len(),
            r@ == joined_codes(codes@.take(i as int)),
            !r@.contains('\x1b'),
            ", "@ == seq![',', ' '],
        decreases codes@.len() - i,
    {
        let ghost before = r@;
        if i > 0 {
            r.append(", ");
            proof {
                lemma_plain_concat(before, seq![',', ' ']);
            }
        }
        let d = decimal(codes[i] as u64);
        let ghost mid = r@;
        r.append(d.as_str());
        proof {
            lemma_decimal_plain(codes@[i as int] as nat);
            lemma_plain_concat(mid, d@);
            assert(codes@.take(i + 1).drop_last() =~= codes@.take(i as int));
            assert(codes@.take(i + 1).last() == codes@[i as int]);
            if i == 0 {
                assert(before =~= Seq::<char>::empty());
                assert(r@ =~= d@);
            }
        }
        i += 1;
    }
    assert(codes@.take(codes@.len() as int) =~= codes@);
    r
}

} // verus!
