//! Statement parsing: free-form statement text is sliced around its
//! keywords into typed statements. Every parser's contract is stated
//! against a spec-level reference parser over `Seq<char>`.

use crate::cadenas::a_cadena;
use crate::cadenas::a_chars;
use crate::cadenas::contiene;
use crate::cadenas::dividir;
use crate::cadenas::dividir_v;
use crate::cadenas::empieza_con;
use crate::cadenas::empieza_con_v;
use crate::cadenas::encuentra;
use crate::cadenas::encuentra_v;
use crate::cadenas::lemma_encuentra;
use crate::cadenas::piezas;
use crate::cadenas::piezas_v;
use crate::cadenas::recorta_fin_char;
use crate::cadenas::recorta_fin_char_v;
use crate::cadenas::recortar;
use crate::cadenas::recortar_v;
use crate::cadenas::sin_char;
use crate::cadenas::sin_char_v;
use crate::cadenas::subvec;
use crate::errors::ErrorPrograma;
use crate::errors::ErrorTipo;
use vstd::prelude::*;

verus! {

/// The four statement kinds, plus everything else.
#[derive(Debug, Clone, Copy, PartialEq, Eq, Structural)]
pub enum QueryType {
    Select,
    Insert,
    Update,
    Delete,
    Desconocido,
}

/// A parsed `INSERT` statement.
#[derive(Debug, PartialEq)]
pub struct Insert {
    pub tabla: String,
    pub nombre_col: String,
    pub valores: Vec<String>,
}

/// A parsed `SELECT` statement.
#[derive(Debug)]
pub struct Select {
    pub columnas: Vec<String>,
    pub tabla: String,
    pub where_clauses: Option<Vec<WhereClause>>,
    pub order_by: Option<Vec<OrderByClause>>,
    pub operacion_logica: Option<Vec<LogicalOperators>>,
}

/// A parsed `UPDATE` statement; the `SET` text is kept raw and only parsed
/// into assignments at execution time.
#[derive(Debug)]
pub struct Update {
    pub tabla: String,
    pub set: String,
    pub where_clauses: Option<Vec<WhereClause>>,
    pub operacion_logica: Option<Vec<LogicalOperators>>,
}

/// A parsed `DELETE` statement.
#[derive(Debug)]
pub struct Delete {
    pub tabla: String,
    pub where_clauses: Option<Vec<WhereClause>>,
    pub operacion_logica: Option<Vec<LogicalOperators>>,
}

/// One leaf comparison of a WHERE predicate.
#[derive(Debug)]
pub struct WhereClause {
    pub valor1: String,
    pub comparacion: Comparaciones,
    pub valor2: String,
    pub es_not: bool,
}

/// One ORDER BY key: a column and a direction.
#[derive(Debug)]
pub struct OrderByClause {
    pub columna: String,
    pub orden: Order,
}

/// The logical connector between two adjacent WHERE clauses.
#[derive(Debug, Clone, Copy, PartialEq, Eq, Structural)]
pub enum LogicalOperators {
    And,
    Or,
}

/// The six comparators a WHERE clause can carry.
#[derive(Debug, Clone, Copy, PartialEq, Eq, Structural)]
pub enum Comparaciones {
    Mayor,
    Menor,
    Igual,
    MayorIgual,
    MenorIgual,
    Diferente,
}

/// A sort direction.
#[derive(Debug, Clone, Copy, PartialEq, Eq, Structural)]
pub enum Order {
    Asc,
    Desc,
}

/// The spec-level image of a `WhereClause`.
pub ghost struct ClausulaEsp {
    pub valor1: Seq<char>,
    pub comparacion: Comparaciones,
    pub valor2: Seq<char>,
    pub es_not: bool,
}

/// The spec-level image of an `OrderByClause`.
pub ghost struct OrdenEsp {
    pub columna: Seq<char>,
    pub orden: Order,
}

pub open spec fn clausula_coincide(w: WhereClause, e: ClausulaEsp) -> bool {
    &&& w.valor1@ == e.valor1
    &&& w.comparacion == e.comparacion
    &&& w.valor2@ == e.valor2
    &&& w.es_not == e.es_not
}

pub open spec fn clausulas_coinciden(ws: Seq<WhereClause>, es: Seq<ClausulaEsp>) -> bool {
    ws.len() == es.len() && forall|i: int| 0 <= i < ws.len() ==> clausula_coincide(ws[i], es[i])
}

pub open spec fn orden_coincide(o: OrderByClause, e: OrdenEsp) -> bool {
    o.columna@ == e.columna && o.orden == e.orden
}

pub open spec fn ordenes_coinciden(os: Seq<OrderByClause>, es: Seq<OrdenEsp>) -> bool {
    os.len() == es.len() && forall|i: int| 0 <= i < os.len() ==> orden_coincide(os[i], es[i])
}

pub open spec fn kw_values() -> Seq<char> {
    seq!['V', 'A', 'L', 'U', 'E', 'S']
}

pub open spec fn kw_where() -> Seq<char> {
    seq!['W', 'H', 'E', 'R', 'E']
}

pub open spec fn kw_order_by() -> Seq<char> {
    seq!['O', 'R', 'D', 'E', 'R', ' ', 'B', 'Y']
}

pub open spec fn kw_from() -> Seq<char> {
    seq!['F', 'R', 'O', 'M']
}

pub open spec fn kw_set() -> Seq<char> {
    seq!['S', 'E', 'T']
}

pub open spec fn kw_select() -> Seq<char> {
    seq!['S', 'E', 'L', 'E', 'C', 'T']
}

pub open spec fn kw_insert_into() -> Seq<char> {
    seq!['I', 'N', 'S', 'E', 'R', 'T', ' ', 'I', 'N', 'T', 'O']
}

pub open spec fn kw_update() -> Seq<char> {
    seq!['U', 'P', 'D', 'A', 'T', 'E']
}

pub open spec fn kw_delete() -> Seq<char> {
    seq!['D', 'E', 'L', 'E', 'T', 'E']
}

pub open spec fn kw_delete_from() -> Seq<char> {
    seq!['D', 'E', 'L', 'E', 'T', 'E', ' ', 'F', 'R', 'O', 'M']
}

fn pat_values() -> (r: Vec<char>)
    ensures
        r@ == kw_values(),
{
    let mut r: Vec<char> = Vec::new();
    r.push('V');
    r.push('A');
    r.push('L');
    r.push('U');
    r.push('E');
    r.push('S');
    proof {
        assert(r@ =~= kw_values());
    }
    r
}

fn pat_where() -> (r: Vec<char>)
    ensures
        r@ == kw_where(),
{
    let mut r: Vec<char> = Vec::new();
    r.push('W');
    r.push('H');
    r.push('E');
    r.push('R');
    r.push('E');
    proof {
        assert(r@ =~= kw_where());
    }
    r
}

fn pat_order_by() -> (r: Vec<char>)
    ensures
        r@ == kw_order_by(),
{
    let mut r: Vec<char> = Vec::new();
    r.push('O');
    r.push('R');
    r.push('D');
    r.push('E');
    r.push('R');
    r.push(' ');
    r.push('B');
    r.push('Y');
    proof {
        assert(r@ =~= kw_order_by());
    }
    r
}

fn pat_from() -> (r: Vec<char>)
    ensures
        r@ == kw_from(),
{
    let mut r: Vec<char> = Vec::new();
    r.push('F');
    r.push('R');
    r.push('O');
    r.push('M');
    proof {
        assert(r@ =~= kw_from());
    }
    r
}

fn pat_set() -> (r: Vec<char>)
    ensures
        r@ == kw_set(),
{
    let mut r: Vec<char> = Vec::new();
    r.push('S');
    r.push('E');
    r.push('T');
    proof {
        assert(r@ =~= kw_set());
    }
    r
}

fn pat_select() -> (r: Vec<char>)
    ensures
        r@ == kw_select(),
{
    let mut r: Vec<char> = Vec::new();
    r.push('S');
    r.push('E');
    r.push('L');
    r.push('E');
    r.push('C');
    r.push('T');
    proof {
        assert(r@ =~= kw_select());
    }
    r
}

fn pat_insert_into() -> (r: Vec<char>)
    ensures
        r@ == kw_insert_into(),
{
    let mut r: Vec<char> = Vec::new();
    r.push('I');
    r.push('N');
    r.push('S');
    r.push('E');
    r.push('R');
    r.push('T');
    r.push(' ');
    r.push('I');
    r.push('N');
    r.push('T');
    r.push('O');
    proof {
        assert(r@ =~= kw_insert_into());
    }
    r
}

fn pat_update() -> (r: Vec<char>)
    ensures
        r@ == kw_update(),
{
    let mut r: Vec<char> = Vec::new();
    r.push('U');
    r.push('P');
    r.push('D');
    r.push('A');
    r.push('T');
    r.push('E');
    proof {
        assert(r@ =~= kw_update());
    }
    r
}

fn pat_delete() -> (r: Vec<char>)
    ensures
        r@ == kw_delete(),
{
    let mut r: Vec<char> = Vec::new();
    r.push('D');
    r.push('E');
    r.push('L');
    r.push('E');
    r.push('T');
    r.push('E');
    proof {
        assert(r@ =~= kw_delete());
    }
    r
}

fn pat_delete_from() -> (r: Vec<char>)
    ensures
        r@ == kw_delete_from(),
{
    let mut r: Vec<char> = Vec::new();
    r.push('D');
    r.push('E');
    r.push('L');
    r.push('E');
    r.push('T');
    r.push('E');
    r.push(' ');
    r.push('F');
    r.push('R');
    r.push('O');
    r.push('M');
    proof {
        assert(r@ =~= kw_delete_from());
    }
    r
}

fn pat_abre() -> (r: Vec<char>)
    ensures
        r@ == seq!['('],
{
    let mut r: Vec<char> = Vec::new();
    r.push('(');
    proof {
        assert(r@ =~= seq!['(']);
    }
    r
}

fn pat_cierra() -> (r: Vec<char>)
    ensures
        r@ == seq![')'],
{
    let mut r: Vec<char> = Vec::new();
    r.push(')');
    proof {
        assert(r@ =~= seq![')']);
    }
    r
}

/// The statement text with each parenthesis set off by spaces, so that
/// whitespace tokenization treats `(` and `)` as tokens of their own.
pub open spec fn separa_parentesis(s: Seq<char>) -> Seq<char>
    decreases s.len(),
{
    if s.len() == 0 {
        s
    } else {
        let r = separa_parentesis(s.drop_first());
        if s[0] == '(' || s[0] == ')' {
            seq![' ', s[0], ' '] + r
        } else {
            seq![s[0]] + r
        }
    }
}

/// Surrounds every parenthesis of `query` with spaces.
pub fn separar_parentesis(query: &str) -> (r: String)
    ensures
        r@ == separa_parentesis(query@),
{
    let v = a_chars(query);
    let mut res: Vec<char> = Vec::new();
    let mut i: usize = 0;
    proof {
        assert(v@.subrange(0, v@.len() as int) =~= v@);
        assert(res@ + separa_parentesis(v@) =~= separa_parentesis(v@));
    }
    while i < v.len()
        invariant
            i <= v@.len(),
            separa_parentesis(query@) == res@ + separa_parentesis(
                v@.subrange(i as int, v@.len() as int),
            ),
            v@ == query@,
        decreases v@.len() - i,
    {
        let ghost resto = v@.subrange(i as int, v@.len() as int);
        let ghost res0 = res@;
        proof {
            assert(resto.len() > 0 && resto[0] == v@[i as int]);
            assert(resto.drop_first() =~= v@.subrange(i as int + 1, v@.len() as int));
        }
        let c = v[i];
        if c == '(' || c == ')' {
            res.push(' ');
            res.push(c);
            res.push(' ');
            proof {
                assert(res0 + (seq![' ', c, ' '] + separa_parentesis(resto.drop_first())) =~= res@
                    + separa_parentesis(resto.drop_first()));
            }
        } else {
            res.push(c);
            proof {
                assert(res0 + (seq![c] + separa_parentesis(resto.drop_first())) =~= res@
                    + separa_parentesis(resto.drop_first()));
            }
        }
        i += 1;
    }
    proof {
        assert(v@.subrange(v@.len() as int, v@.len() as int) =~= Seq::<char>::empty());
        assert(res@ + Seq::<char>::empty() =~= res@);
    }
    a_cadena(&res)
}

/// One step per character of the INSERT value-group scan: a run inside
/// parentheses becomes one group (trimmed), `;` stops the scan, anything
/// outside parentheses is ignored.
pub open spec fn grupos_valores_rec(
    s: Seq<char>,
    i: int,
    dentro: bool,
    actual: Seq<char>,
    acc: Seq<Seq<char>>,
) -> Seq<Seq<char>>
    decreases s.len() - i,
{
    if i < 0 || i >= s.len() {
        acc
    } else {
        let c = s[i];
        if c == '(' {
            grupos_valores_rec(s, i + 1, true, Seq::empty(), acc)
        } else if c == ')' {
            grupos_valores_rec(s, i + 1, false, actual, acc.push(recortar(actual)))
        } else if c == ';' {
            acc
        } else if dentro {
            grupos_valores_rec(s, i + 1, dentro, actual.push(c), acc)
        } else {
            grupos_valores_rec(s, i + 1, dentro, actual, acc)
        }
    }
}

/// The value groups of the text after `VALUES`.
pub open spec fn grupos_valores(s: Seq<char>) -> Seq<Seq<char>> {
    grupos_valores_rec(s, 0, false, Seq::empty(), Seq::empty())
}

/// The spec-level image of a parsed `Insert`.
pub ghost struct InsercionEsp {
    pub tabla: Seq<char>,
    pub columnas: Seq<char>,
    pub valores: Seq<Seq<char>>,
}

pub open spec fn insercion_coincide(i: Insert, e: InsercionEsp) -> bool {
    &&& i.tabla@ == e.tabla
    &&& i.nombre_col@ == e.columnas
    &&& i.valores.deep_view() == e.valores
}

/// What `INSERT` statement text parses to, if it parses: the keyword
/// `VALUES` splits the text; the table line must carry `INSERT INTO ` and a
/// parenthesized column list; the rest is scanned into value groups.
pub open spec fn insercion_de(q: Seq<char>) -> Option<InsercionEsp> {
    match encuentra(q, kw_values()) {
        None => None,
        Some(pv) => {
            let lt = recortar(q.subrange(0, pv));
            let lv = recortar(q.subrange(pv + 6, q.len() as int));
            if lt.len() < 12 {
                None
            } else {
                let lt2 = recortar(lt.subrange(12, lt.len() as int));
                match (encuentra(lt2, seq!['(']), encuentra(lt2, seq![')'])) {
                    (Some(pi), Some(pf)) => {
                        if pf < pi {
                            None
                        } else {
                            Some(
                                InsercionEsp {
                                    tabla: recortar(lt2.subrange(0, pi)),
                                    columnas: recortar(lt2.subrange(pi + 1, pf)),
                                    valores: grupos_valores(lv),
                                },
                            )
                        }
                    },
                    _ => None,
                }
            }
        },
    }
}

impl Insert {
    pub fn new(tabla: &str, columnas: &str, values: Vec<String>) -> (r: Self)
        ensures
            r.tabla@ == tabla@,
            r.nombre_col@ == columnas@,
            r.valores == values,
    {
        Insert { tabla: tabla.to_owned(), nombre_col: columnas.to_owned(), valores: values }
    }

    /// Scans the text after `VALUES` into one trimmed group per
    /// parenthesized run, stopping at the first `;`.
    pub fn separar_insert_clauses(linea_values: &str) -> (r: Vec<String>)
        ensures
            r.deep_view() == grupos_valores(linea_values@),
    {
        let v = a_chars(linea_values);
        let mut res: Vec<String> = Vec::new();
        let mut actual: Vec<char> = Vec::new();
        let mut dentro = false;
        let mut i: usize = 0;
        proof {
            assert(res.deep_view() =~~= Seq::<Seq<char>>::empty());
            assert(actual@ =~= Seq::<char>::empty());
        }
        while i < v.len()
            invariant
                i <= v@.len(),
                v@ == linea_values@,
                grupos_valores(linea_values@) == grupos_valores_rec(
                    v@,
                    i as int,
                    dentro,
                    actual@,
                    res.deep_view(),
                ),
            decreases v@.len() - i,
        {
            let ghost res0 = res.deep_view();
            let c = v[i];
            if c == '(' {
                dentro = true;
                actual = Vec::new();
            } else if c == ')' {
                dentro = false;
                let recortada = recortar_v(&actual);
                res.push(a_cadena(&recortada));
                proof {
                    assert(res.deep_view() =~~= res0.push(recortar(actual@)));
                }
            } else if c == ';' {
                proof {
                    assert(grupos_valores_rec(v@, i as int, dentro, actual@, res0) == res0);
                }
                return res;
            } else if dentro {
                actual.push(c);
            }
            i += 1;
        }
        res
    }

    /// Parses `INSERT` statement text into the table name, the column list
    /// and the value groups; any text that the grammar does not shape is a
    /// `Syntax` error.
    pub fn insert_parsear_query(query: &str) -> (r: Result<Self, ErrorPrograma>)
        ensures
            match r {
                Ok(ins) => insercion_de(query@) is Some && insercion_coincide(
                    ins,
                    insercion_de(query@)->Some_0,
                ),
                Err(e) => insercion_de(query@) is None && e.tipo_spec() == ErrorTipo::Syntax,
            },
    {
        let q = a_chars(query);
        let patron = pat_values();
        let pos_values = match encuentra_v(&q, &patron) {
            Some(p) => p,
            None => {
                return Err(
                    ErrorPrograma::new(
                        ErrorTipo::Syntax,
                        "No se pudo encontrar VALUES en la query.",
                    ),
                );
            },
        };
        proof {
            lemma_encuentra(q@, kw_values());
        }
        let n = q.len();
        let linea_tabla_cruda = subvec(&q, 0, pos_values);
        let linea_tabla = recortar_v(&linea_tabla_cruda);
        let resto_values = subvec(&q, pos_values + 6, n);
        let linea_values = recortar_v(&resto_values);
        if linea_tabla.len() < 12 {
            return Err(
                ErrorPrograma::new(
                    ErrorTipo::Syntax,
                    "No se encontro el nombre de la tabla en la query.",
                ),
            );
        }
        let cola_tabla = subvec(&linea_tabla, 12, linea_tabla.len());
        let linea_tabla2 = recortar_v(&cola_tabla);
        let abre = pat_abre();
        let cierra = pat_cierra();
        let pos_ini = match encuentra_v(&linea_tabla2, &abre) {
            Some(p) => p,
            None => {
                return Err(
                    ErrorPrograma::new(
                        ErrorTipo::Syntax,
                        "Revise si las columnas de la tabla donde insertara se encuentran entre parentesis.",
                    ),
                );
            },
        };
        let pos_fin = match encuentra_v(&linea_tabla2, &cierra) {
            Some(p) => p,
            None => {
                return Err(
                    ErrorPrograma::new(
                        ErrorTipo::Syntax,
                        "Revise si las columnas de la tabla donde insertara se encuentran entre parentesis.",
                    ),
                );
            },
        };
        if pos_fin < pos_ini {
            return Err(
                ErrorPrograma::new(
                    ErrorTipo::Syntax,
                    "Revise si las columnas de la tabla donde insertara se encuentran entre parentesis.",
                ),
            );
        }
        proof {
            lemma_encuentra(linea_tabla2@, seq!['(']);
            lemma_encuentra(linea_tabla2@, seq![')']);
            assert(linea_tabla2@.subrange(pos_ini as int, pos_ini as int + 1)[0] == '(');
            assert(linea_tabla2@.subrange(pos_fin as int, pos_fin as int + 1)[0] == ')');
            assert(linea_tabla2@[pos_ini as int] == '(');
            assert(linea_tabla2@[pos_fin as int] == ')');
        }
        let nombre_tabla_crudo = subvec(&linea_tabla2, 0, pos_ini);
        let nombre_tabla = recortar_v(&nombre_tabla_crudo);
        let columnas_crudas = subvec(&linea_tabla2, pos_ini + 1, pos_fin);
        let nombre_columnas = recortar_v(&columnas_crudas);
        let valores = Self::separar_insert_clauses(a_cadena(&linea_values).as_str());
        let tabla_str = a_cadena(&nombre_tabla);
        let columnas_str = a_cadena(&nombre_columnas);
        Ok(Insert::new(tabla_str.as_str(), columnas_str.as_str(), valores))
    }
}

} // verus!

verus! {

/// The comparator a token denotes, if any.
pub open spec fn comparador_de(t: Seq<char>) -> Option<Comparaciones> {
    if t.len() == 1 && t[0] == '>' {
        Some(Comparaciones::Mayor)
    } else if t.len() == 1 && t[0] == '<' {
        Some(Comparaciones::Menor)
    } else if t.len() == 1 && t[0] == '=' {
        Some(Comparaciones::Igual)
    } else if t.len() == 2 && t[0] == '>' && t[1] == '=' {
        Some(Comparaciones::MayorIgual)
    } else if t.len() == 2 && t[0] == '<' && t[1] == '=' {
        Some(Comparaciones::MenorIgual)
    } else if t.len() == 2 && t[0] == '!' && t[1] == '=' {
        Some(Comparaciones::Diferente)
    } else {
        None
    }
}

/// The comparator the token `t` denotes, if any.
pub fn comparador_exec(t: &Vec<char>) -> (r: Option<Comparaciones>)
    ensures
        r == comparador_de(t@),
{
    if t.len() == 1 && t[0] == '>' {
        Some(Comparaciones::Mayor)
    } else if t.len() == 1 && t[0] == '<' {
        Some(Comparaciones::Menor)
    } else if t.len() == 1 && t[0] == '=' {
        Some(Comparaciones::Igual)
    } else if t.len() == 2 && t[0] == '>' && t[1] == '=' {
        Some(Comparaciones::MayorIgual)
    } else if t.len() == 2 && t[0] == '<' && t[1] == '=' {
        Some(Comparaciones::MenorIgual)
    } else if t.len() == 2 && t[0] == '!' && t[1] == '=' {
        Some(Comparaciones::Diferente)
    } else {
        None
    }
}

/// The logical connector a token denotes, if any.
pub open spec fn conector_de(t: Seq<char>) -> Option<LogicalOperators> {
    if t.len() == 3 && t[0] == 'A' && t[1] == 'N' && t[2] == 'D' {
        Some(LogicalOperators::And)
    } else if t.len() == 2 && t[0] == 'O' && t[1] == 'R' {
        Some(LogicalOperators::Or)
    } else {
        None
    }
}

/// The logical connector the token `t` denotes, if any.
pub fn conector_exec(t: &Vec<char>) -> (r: Option<LogicalOperators>)
    ensures
        r == conector_de(t@),
{
    if t.len() == 3 && t[0] == 'A' && t[1] == 'N' && t[2] == 'D' {
        Some(LogicalOperators::And)
    } else if t.len() == 2 && t[0] == 'O' && t[1] == 'R' {
        Some(LogicalOperators::Or)
    } else {
        None
    }
}

/// A parenthesis token, which the clause parser skips.
pub open spec fn es_parentesis(t: Seq<char>) -> bool {
    t.len() == 1 && (t[0] == '(' || t[0] == ')')
}

/// The `NOT` token.
pub open spec fn es_token_not(t: Seq<char>) -> bool {
    t.len() == 3 && t[0] == 'N' && t[1] == 'O' && t[2] == 'T'
}

/// What a token sequence parses to: leaf clauses, each an optional `NOT`
/// and then `operand comparator operand`, joined by `AND`/`OR` connector
/// tokens; parenthesis tokens before a clause are skipped. `None` is a
/// syntax error.
pub open spec fn parsea_clausulas(
    toks: Seq<Seq<char>>,
    acc_c: Seq<ClausulaEsp>,
    acc_o: Seq<LogicalOperators>,
) -> Option<(Seq<ClausulaEsp>, Seq<LogicalOperators>)>
    decreases toks.len(),
{
    if toks.len() == 0 {
        Some((acc_c, acc_o))
    } else if es_parentesis(toks[0]) {
        parsea_clausulas(toks.drop_first(), acc_c, acc_o)
    } else {
        let es_not = es_token_not(toks[0]);
        let t = if es_not {
            toks.drop_first()
        } else {
            toks
        };
        if t.len() < 3 {
            None
        } else {
            match comparador_de(t[1]) {
                None => None,
                Some(cmp) => {
                    let acc_c2 = acc_c.push(
                        ClausulaEsp { valor1: t[0], comparacion: cmp, valor2: t[2], es_not },
                    );
                    if t.len() == 3 {
                        Some((acc_c2, acc_o))
                    } else {
                        match conector_de(t[3]) {
                            None => None,
                            Some(op) => parsea_clausulas(
                                t.subrange(4, t.len() as int),
                                acc_c2,
                                acc_o.push(op),
                            ),
                        }
                    }
                },
            }
        }
    }
}

/// What a WHERE-clause substring parses to: its whitespace tokens, with
/// parentheses set off, fed to the clause parser.
pub open spec fn clausulas_de(wc: Seq<char>) -> Option<(Seq<ClausulaEsp>, Seq<LogicalOperators>)> {
    parsea_clausulas(piezas(separa_parentesis(wc)), Seq::empty(), Seq::empty())
}

/// What the text from `WHERE` on parses to: the substring after `WHERE` up
/// to `ORDER BY` (or the end), parsed as clauses. `None` is a syntax error.
pub open spec fn donde_de(resto: Seq<char>) -> Option<(Seq<ClausulaEsp>, Seq<LogicalOperators>)> {
    match encuentra(resto, kw_where()) {
        None => None,
        Some(pw) => {
            let fin = match encuentra(resto, kw_order_by()) {
                Some(po) => po,
                None => resto.len() as int,
            };
            if fin < pw + 5 {
                None
            } else {
                clausulas_de(recortar(resto.subrange(pw + 5, fin)))
            }
        },
    }
}

impl WhereClause {
    /// A leaf comparison built from its parts.
    pub fn new(valor1: String, comparacion: Comparaciones, valor2: String, es_not: bool) -> (r:
        Self)
        ensures
            r.valor1 == valor1,
            r.comparacion == comparacion,
            r.valor2 == valor2,
            r.es_not == es_not,
    {
        WhereClause { valor1, comparacion, valor2, es_not }
    }

    /// Reads one `operand comparator operand` triple at token position `i`.
    pub fn clasificar_valores_clause(toks: &Vec<Vec<char>>, i: usize) -> (r: Result<
        (String, Comparaciones, String),
        ErrorPrograma,
    >)
        requires
            i <= toks.deep_view().len(),
        ensures
            match r {
                Ok(t) => {
                    &&& i + 3 <= toks.deep_view().len()
                    &&& comparador_de(toks.deep_view()[i as int + 1]) == Some(t.1)
                    &&& t.0@ == toks.deep_view()[i as int]
                    &&& t.2@ == toks.deep_view()[i as int + 2]
                },
                Err(e) => (i + 3 > toks.deep_view().len() || comparador_de(
                    toks.deep_view()[i as int + 1],
                ) is None) && e.tipo_spec() == ErrorTipo::Syntax,
            },
    {
        if toks.len() < 3 || i > toks.len() - 3 {
            return Err(
                ErrorPrograma::new(
                    ErrorTipo::Syntax,
                    "No se encontro un valor en la clausula WHERE, recuerde que la clause debe ser valor1 comparacion valor2.",
                ),
            );
        }
        let comparacion = match comparador_exec(&toks[i + 1]) {
            Some(c) => c,
            None => {
                return Err(
                    ErrorPrograma::new(
                        ErrorTipo::Syntax,
                        "El tipo de comparacion ingresado no es valido, recuerde que estos pueden ser: =, !=, <, > , <= o >=.",
                    ),
                );
            },
        };
        let valor1 = a_cadena(&toks[i]);
        let valor2 = a_cadena(&toks[i + 2]);
        Ok((valor1, comparacion, valor2))
    }

    /// Splits a WHERE-clause substring into leaf clauses and the connectors
    /// between them.
    pub fn clasificar_clauses(where_clause: &str) -> (r: Result<
        (Vec<WhereClause>, Vec<LogicalOperators>),
        ErrorPrograma,
    >)
        ensures
            match r {
                Ok(p) => clausulas_de(where_clause@) is Some && clausulas_coinciden(
                    p.0@,
                    clausulas_de(where_clause@)->Some_0.0,
                ) && p.1@ == clausulas_de(where_clause@)->Some_0.1,
                Err(e) => clausulas_de(where_clause@) is None && e.tipo_spec()
                    == ErrorTipo::Syntax,
            },
    {
        let separada = separar_parentesis(where_clause);
        let sep_chars = a_chars(separada.as_str());
        let toks = piezas_v(&sep_chars);
        let ghost toksd = toks.deep_view();
        let mut ws: Vec<WhereClause> = Vec::new();
        let mut ops: Vec<LogicalOperators> = Vec::new();
        let ghost mut esp: Seq<ClausulaEsp> = Seq::empty();
        let mut i: usize = 0;
        proof {
            assert(toksd.subrange(0, toksd.len() as int) =~~= toksd);
            assert(clausulas_de(where_clause@) == parsea_clausulas(toksd, esp, ops@));
        }
        while i < toks.len()
            invariant
                i <= toks@.len(),
                toksd == toks.deep_view(),
                clausulas_de(where_clause@) == parsea_clausulas(
                    toksd.subrange(i as int, toksd.len() as int),
                    esp,
                    ops@,
                ),
                clausulas_coinciden(ws@, esp),
            decreases toks@.len() - i,
        {
            let ghost sub = toksd.subrange(i as int, toksd.len() as int);
            proof {
                assert(sub[0] == toksd[i as int]);
                assert(sub.drop_first() =~~= toksd.subrange(i as int + 1, toksd.len() as int));
            }
            let tok = &toks[i];
            let es_par = tok.len() == 1 && (tok[0] == '(' || tok[0] == ')');
            if es_par {
                proof {
                    assert(es_parentesis(sub[0]));
                }
                i += 1;
            } else {
                proof {
                    assert(!es_parentesis(sub[0]));
                }
                let es_not = tok.len() == 3 && tok[0] == 'N' && tok[1] == 'O' && tok[2] == 'T';
                let j = if es_not {
                    i + 1
                } else {
                    i
                };
                let ghost t_esp = if es_not {
                    sub.drop_first()
                } else {
                    sub
                };
                proof {
                    assert(es_not == es_token_not(sub[0]));
                    assert(t_esp =~~= toksd.subrange(j as int, toksd.len() as int));
                }
                let triple = match Self::clasificar_valores_clause(&toks, j) {
                    Ok(t) => t,
                    Err(e) => {
                        proof {
                            if t_esp.len() >= 3 {
                                assert(t_esp[1] == toksd[j as int + 1]);
                            }
                        }
                        return Err(e);
                    },
                };
                proof {
                    assert(t_esp.len() >= 3);
                    assert(t_esp[0] == toksd[j as int]);
                    assert(t_esp[1] == toksd[j as int + 1]);
                    assert(t_esp[2] == toksd[j as int + 2]);
                }
                let (valor1, comparacion, valor2) = triple;
                let ghost nueva = ClausulaEsp {
                    valor1: t_esp[0],
                    comparacion,
                    valor2: t_esp[2],
                    es_not,
                };
                ws.push(WhereClause::new(valor1, comparacion, valor2, es_not));
                proof {
                    esp = esp.push(nueva);
                    assert(clausula_coincide(ws@.last(), nueva));
                    assert(clausulas_coinciden(ws@, esp));
                }
                if j + 3 < toks.len() {
                    let op = match conector_exec(&toks[j + 3]) {
                        Some(o) => o,
                        None => {
                            proof {
                                assert(t_esp[3] == toksd[j as int + 3]);
                                assert(t_esp.len() > 3);
                            }
                            return Err(
                                ErrorPrograma::new(
                                    ErrorTipo::Syntax,
                                    "El operador logico ingresado no es valido o la sintaxis fue invalida, los operadores que se pueden manejar son AND, OR y NOT.",
                                ),
                            );
                        },
                    };
                    ops.push(op);
                    proof {
                        assert(t_esp[3] == toksd[j as int + 3]);
                        assert(t_esp.len() > 3);
                        assert(t_esp.subrange(4, t_esp.len() as int) =~~= toksd.subrange(
                            j as int + 4,
                            toksd.len() as int,
                        ));
                    }
                    i = j + 4;
                } else {
                    proof {
                        assert(t_esp.len() == 3);
                        assert(toksd.subrange(j as int + 3, toksd.len() as int)
                            =~~= Seq::<Seq<char>>::empty());
                    }
                    i = j + 3;
                }
            }
        }
        proof {
            assert(toksd.subrange(i as int, toksd.len() as int) =~~= Seq::<Seq<char>>::empty());
        }
        Ok((ws, ops))
    }

    /// Locates `WHERE`, slices the predicate text up to `ORDER BY` if
    /// present, and parses it into clauses and connectors.
    pub fn clasificar_where_clause(resto: &str) -> (r: Result<
        (Vec<WhereClause>, Vec<LogicalOperators>),
        ErrorPrograma,
    >)
        ensures
            match r {
                Ok(p) => donde_de(resto@) is Some && clausulas_coinciden(
                    p.0@,
                    donde_de(resto@)->Some_0.0,
                ) && p.1@ == donde_de(resto@)->Some_0.1,
                Err(e) => donde_de(resto@) is None && e.tipo_spec() == ErrorTipo::Syntax,
            },
    {
        let v = a_chars(resto);
        let patron_where = pat_where();
        let pos_where = match encuentra_v(&v, &patron_where) {
            Some(p) => p,
            None => {
                return Err(
                    ErrorPrograma::new(
                        ErrorTipo::Syntax,
                        "No se encontro WHERE en la query, revise si esta en minuscula.",
                    ),
                );
            },
        };
        proof {
            lemma_encuentra(v@, kw_where());
        }
        let n = v.len();
        let patron_ob = pat_order_by();
        let fin = match encuentra_v(&v, &patron_ob) {
            Some(p) => p,
            None => n,
        };
        proof {
            lemma_encuentra(v@, kw_order_by());
        }
        if fin < pos_where + 5 {
            return Err(
                ErrorPrograma::new(
                    ErrorTipo::Syntax,
                    "No se encontro WHERE en la query, revise si esta en minuscula.",
                ),
            );
        }
        let cruda = subvec(&v, pos_where + 5, fin);
        let clausula = recortar_v(&cruda);
        Self::clasificar_clauses(a_cadena(&clausula).as_str())
    }
}

} // verus!

verus! {

/// The `ASC` token.
pub open spec fn es_token_asc(t: Seq<char>) -> bool {
    t.len() == 3 && t[0] == 'A' && t[1] == 'S' && t[2] == 'C'
}

/// The `DESC` token.
pub open spec fn es_token_desc(t: Seq<char>) -> bool {
    t.len() == 4 && t[0] == 'D' && t[1] == 'E' && t[2] == 'S' && t[3] == 'C'
}

/// One sort key per comma-separated part: the first token is the column
/// (`None` when a part has no token at all), the second sets the direction
/// when it is `ASC` or `DESC`; anything else defaults to ascending.
pub open spec fn ordenes_rec(partes: Seq<Seq<char>>, acc: Seq<OrdenEsp>) -> Option<Seq<OrdenEsp>>
    decreases partes.len(),
{
    if partes.len() == 0 {
        Some(acc)
    } else {
        let ws = piezas(partes[0]);
        if ws.len() == 0 {
            None
        } else {
            let ord = if ws.len() >= 2 && es_token_asc(ws[1]) {
                Order::Asc
            } else if ws.len() >= 2 && es_token_desc(ws[1]) {
                Order::Desc
            } else {
                Order::Asc
            };
            ordenes_rec(partes.drop_first(), acc.push(OrdenEsp { columna: ws[0], orden: ord }))
        }
    }
}

/// What the text from `ORDER BY` on parses to: the substring after the
/// keyword, with semicolons removed, split on commas into sort keys.
pub open spec fn orden_de(resto: Seq<char>) -> Result<Seq<OrdenEsp>, ErrorTipo> {
    match encuentra(resto, kw_order_by()) {
        None => Err(ErrorTipo::Syntax),
        Some(po) => {
            let sub = sin_char(recortar(resto.subrange(po + 8, resto.len() as int)), ';');
            match ordenes_rec(dividir(sub, ','), Seq::empty()) {
                None => Err(ErrorTipo::Column),
                Some(os) => Ok(os),
            }
        },
    }
}

impl OrderByClause {
    /// A sort key built from its parts.
    pub fn new(columna: &str, orden: Order) -> (r: Self)
        ensures
            r.columna@ == columna@,
            r.orden == orden,
    {
        OrderByClause { columna: columna.to_owned(), orden }
    }

    /// Locates `ORDER BY` and parses what follows into sort keys.
    pub fn clasificar_order_by_clause(resto: &str) -> (r: Result<Vec<OrderByClause>, ErrorPrograma>)
        ensures
            match r {
                Ok(os) => orden_de(resto@) is Ok && ordenes_coinciden(os@, orden_de(resto@)->Ok_0),
                Err(e) => orden_de(resto@) is Err && e.tipo_spec() == orden_de(resto@)->Err_0,
            },
    {
        let v = a_chars(resto);
        let patron_ob = pat_order_by();
        let pos = match encuentra_v(&v, &patron_ob) {
            Some(p) => p,
            None => {
                return Err(
                    ErrorPrograma::new(
                        ErrorTipo::Syntax,
                        "No se encontro ORDER BY dentro de la query.",
                    ),
                );
            },
        };
        proof {
            lemma_encuentra(v@, kw_order_by());
        }
        let n = v.len();
        let cruda = subvec(&v, pos + 8, n);
        let recortada = recortar_v(&cruda);
        let sub = sin_char_v(&recortada, ';');
        let partes = dividir_v(&sub, ',');
        let ghost partesd = partes.deep_view();
        let mut res: Vec<OrderByClause> = Vec::new();
        let ghost mut esp: Seq<OrdenEsp> = Seq::empty();
        let mut k: usize = 0;
        proof {
            assert(partesd.subrange(0, partesd.len() as int) =~~= partesd);
        }
        while k < partes.len()
            invariant
                k <= partes@.len(),
                partesd == partes.deep_view(),
                orden_de(resto@) == (match ordenes_rec(partesd, Seq::empty()) {
                    None => Err::<Seq<OrdenEsp>, ErrorTipo>(ErrorTipo::Column),
                    Some(os) => Ok(os),
                }),
                ordenes_rec(partesd, Seq::empty()) == ordenes_rec(
                    partesd.subrange(k as int, partesd.len() as int),
                    esp,
                ),
                ordenes_coinciden(res@, esp),
            decreases partes@.len() - k,
        {
            let ghost sub_p = partesd.subrange(k as int, partesd.len() as int);
            proof {
                assert(sub_p[0] == partesd[k as int]);
                assert(sub_p.drop_first() =~~= partesd.subrange(k as int + 1, partesd.len() as int));
                assert(partesd[k as int] =~= partes@[k as int]@);
            }
            let ws = piezas_v(&partes[k]);
            proof {
                assert(ws.deep_view() == piezas(sub_p[0]));
            }
            if ws.len() == 0 {
                return Err(
                    ErrorPrograma::new(
                        ErrorTipo::Column,
                        "La columna ingresada en el ORDER BY no fue valida o no se encontro.",
                    ),
                );
            }
            let orden = if ws.len() >= 2 {
                let t = &ws[1];
                if t.len() == 3 && t[0] == 'A' && t[1] == 'S' && t[2] == 'C' {
                    Order::Asc
                } else if t.len() == 4 && t[0] == 'D' && t[1] == 'E' && t[2] == 'S' && t[3] == 'C' {
                    Order::Desc
                } else {
                    Order::Asc
                }
            } else {
                Order::Asc
            };
            proof {
                assert(ws.deep_view()[0] =~= ws@[0]@);
                if ws@.len() >= 2 {
                    assert(ws.deep_view()[1] =~= ws@[1]@);
                }
            }
            let columna = a_cadena(&ws[0]);
            let ghost nueva = OrdenEsp { columna: piezas(sub_p[0])[0], orden };
            res.push(OrderByClause::new(columna.as_str(), orden));
            proof {
                esp = esp.push(nueva);
                assert(orden_coincide(res@.last(), nueva));
                assert(ordenes_coinciden(res@, esp));
            }
            k += 1;
        }
        proof {
            assert(partesd.subrange(partesd.len() as int, partesd.len() as int)
                =~~= Seq::<Seq<char>>::empty());
        }
        Ok(res)
    }
}

} // verus!

verus! {

/// The spec-level image of what `obtener_campos` extracts: the table name
/// and the optional WHERE and ORDER BY parts.
pub ghost struct CamposEsp {
    pub tabla: Seq<char>,
    pub clausulas: Seq<ClausulaEsp>,
    pub orden: Option<Seq<OrdenEsp>>,
    pub conectores: Seq<LogicalOperators>,
}

pub open spec fn campos_coinciden(
    t: (String, Vec<WhereClause>, Option<Vec<OrderByClause>>, Vec<LogicalOperators>),
    e: CamposEsp,
) -> bool {
    &&& t.0@ == e.tabla
    &&& clausulas_coinciden(t.1@, e.clausulas)
    &&& match (t.2, e.orden) {
        (Some(os), Some(es)) => ordenes_coinciden(os@, es),
        (None, None) => true,
        _ => false,
    }
    &&& t.3@ == e.conectores
}

/// What the text from position `pos` (where `FROM` stands) parses to: the
/// statement with trailing `;` removed, the first token after `FROM` as the
/// table name, and the WHERE and ORDER BY parts where their keywords occur.
pub open spec fn campos_de(q: Seq<char>, pos: int) -> Result<CamposEsp, ErrorTipo> {
    let ql = recorta_fin_char(q, ';');
    if pos < 0 || pos > ql.len() {
        Err(ErrorTipo::Syntax)
    } else {
        let resto = recortar(ql.subrange(pos, ql.len() as int));
        if resto.len() < 4 {
            Err(ErrorTipo::Syntax)
        } else {
            let ts = piezas(resto.subrange(4, resto.len() as int));
            if ts.len() == 0 {
                Err(ErrorTipo::Syntax)
            } else {
                let w = if contiene(resto, kw_where()) {
                    donde_de(resto)
                } else {
                    Some((Seq::<ClausulaEsp>::empty(), Seq::<LogicalOperators>::empty()))
                };
                match w {
                    None => Err(ErrorTipo::Syntax),
                    Some(p) => {
                        if contiene(resto, kw_order_by()) {
                            match orden_de(resto) {
                                Err(t) => Err(t),
                                Ok(os) => Ok(
                                    CamposEsp {
                                        tabla: ts[0],
                                        clausulas: p.0,
                                        orden: Some(os),
                                        conectores: p.1,
                                    },
                                ),
                            }
                        } else {
                            Ok(
                                CamposEsp {
                                    tabla: ts[0],
                                    clausulas: p.0,
                                    orden: None,
                                    conectores: p.1,
                                },
                            )
                        }
                    },
                }
            }
        }
    }
}

/// The spec-level image of a parsed `Select`.
pub ghost struct SeleccionEsp {
    pub columnas: Seq<Seq<char>>,
    pub campos: CamposEsp,
}

pub open spec fn seleccion_coincide(s: Select, e: SeleccionEsp) -> bool {
    &&& s.columnas.deep_view() == e.columnas
    &&& s.tabla@ == e.campos.tabla
    &&& match s.where_clauses {
        Some(ws) => clausulas_coinciden(ws@, e.campos.clausulas),
        None => false,
    }
    &&& match (s.order_by, e.campos.orden) {
        (Some(os), Some(es)) => ordenes_coinciden(os@, es),
        (None, None) => true,
        _ => false,
    }
    &&& match s.operacion_logica {
        Some(os) => os@ == e.campos.conectores,
        None => false,
    }
}

/// What `SELECT` statement text parses to: the comma-separated column list
/// before the first `FROM`, then the table and clause parts.
pub open spec fn seleccion_de(q: Seq<char>) -> Result<SeleccionEsp, ErrorTipo> {
    match encuentra(q, kw_from()) {
        None => Err(ErrorTipo::Syntax),
        Some(pf) => {
            if pf < 7 {
                Err(ErrorTipo::Syntax)
            } else {
                match campos_de(q, pf) {
                    Err(t) => Err(t),
                    Ok(c) => Ok(
                        SeleccionEsp {
                            columnas: dividir(recortar(q.subrange(7, pf)), ',').map_values(
                                |s: Seq<char>| recortar(s),
                            ),
                            campos: c,
                        },
                    ),
                }
            }
        },
    }
}

impl Select {
    /// A `SELECT` statement built from its parts.
    pub fn new(
        columnas: Vec<String>,
        tabla: String,
        where_clauses: Option<Vec<WhereClause>>,
        order_by: Option<Vec<OrderByClause>>,
        operacion_logica: Option<Vec<LogicalOperators>>,
    ) -> (r: Self)
        ensures
            r.columnas == columnas,
            r.tabla == tabla,
            r.where_clauses == where_clauses,
            r.order_by == order_by,
            r.operacion_logica == operacion_logica,
    {
        Select { columnas, tabla, where_clauses, order_by, operacion_logica }
    }

    /// Extracts from the text after `FROM` the table name and the parsed
    /// WHERE and ORDER BY parts.
    pub fn obtener_campos(query: &str, posicion_from: usize) -> (r: Result<
        (String, Vec<WhereClause>, Option<Vec<OrderByClause>>, Vec<LogicalOperators>),
        ErrorPrograma,
    >)
        ensures
            match r {
                Ok(t) => campos_de(query@, posicion_from as int) is Ok && campos_coinciden(
                    t,
                    campos_de(query@, posicion_from as int)->Ok_0,
                ),
                Err(e) => campos_de(query@, posicion_from as int) is Err && e.tipo_spec()
                    == campos_de(query@, posicion_from as int)->Err_0,
            },
    {
        let q = a_chars(query);
        let ql = recorta_fin_char_v(&q, ';');
        if posicion_from > ql.len() {
            return Err(
                ErrorPrograma::new(
                    ErrorTipo::Syntax,
                    "No se encontro el nombre de la tabla, la sintaxis validad es: SELECT <columnas> FROM <tabla>.",
                ),
            );
        }
        let nql = ql.len();
        let resto_crudo = subvec(&ql, posicion_from, nql);
        let resto = recortar_v(&resto_crudo);
        if resto.len() < 4 {
            return Err(
                ErrorPrograma::new(
                    ErrorTipo::Syntax,
                    "No se encontro el nombre de la tabla, la sintaxis validad es: SELECT <columnas> FROM <tabla>.",
                ),
            );
        }
        let cola = subvec(&resto, 4, resto.len());
        let ts = piezas_v(&cola);
        if ts.len() == 0 {
            return Err(
                ErrorPrograma::new(
                    ErrorTipo::Syntax,
                    "No se encontro el nombre de la tabla, la sintaxis validad es: SELECT <columnas> FROM <tabla>.",
                ),
            );
        }
        proof {
            assert(ts.deep_view()[0] =~= ts@[0]@);
        }
        let tabla = a_cadena(&ts[0]);
        let resto_str = a_cadena(&resto);
        let patron_where = pat_where();
        let tiene_where = encuentra_v(&resto, &patron_where).is_some();
        let par_where = if tiene_where {
            match WhereClause::clasificar_where_clause(resto_str.as_str()) {
                Ok(p) => p,
                Err(e) => {
                    return Err(e);
                },
            }
        } else {
            (Vec::new(), Vec::new())
        };
        let (ws, ops) = par_where;
        let patron_ob = pat_order_by();
        let tiene_ob = encuentra_v(&resto, &patron_ob).is_some();
        if tiene_ob {
            match OrderByClause::clasificar_order_by_clause(resto_str.as_str()) {
                Ok(os) => Ok((tabla, ws, Some(os), ops)),
                Err(e) => Err(e),
            }
        } else {
            Ok((tabla, ws, None, ops))
        }
    }

    /// Parses `SELECT` statement text into the requested columns, the table
    /// and the optional WHERE and ORDER BY parts.
    pub fn select_parsear_query(query: &str) -> (r: Result<Self, ErrorPrograma>)
        ensures
            match r {
                Ok(s) => seleccion_de(query@) is Ok && seleccion_coincide(
                    s,
                    seleccion_de(query@)->Ok_0,
                ),
                Err(e) => seleccion_de(query@) is Err && e.tipo_spec() == seleccion_de(
                    query@,
                )->Err_0,
            },
    {
        let q = a_chars(query);
        let patron_from = pat_from();
        let pf = match encuentra_v(&q, &patron_from) {
            Some(p) => p,
            None => {
                return Err(
                    ErrorPrograma::new(
                        ErrorTipo::Syntax,
                        "No se encontro el FROM dentro de la query, la sintaxis valida es: SELECT <columnas> FROM <tabla>.",
                    ),
                );
            },
        };
        proof {
            lemma_encuentra(q@, kw_from());
        }
        if pf < 7 {
            return Err(
                ErrorPrograma::new(
                    ErrorTipo::Syntax,
                    "No se encontro el FROM dentro de la query, la sintaxis valida es: SELECT <columnas> FROM <tabla>.",
                ),
            );
        }
        let cols_crudas = subvec(&q, 7, pf);
        let cols_rec = recortar_v(&cols_crudas);
        let partes = dividir_v(&cols_rec, ',');
        let ghost partesd = partes.deep_view();
        let mut columnas: Vec<String> = Vec::new();
        let mut k: usize = 0;
        while k < partes.len()
            invariant
                k <= partes@.len(),
                partesd == partes.deep_view(),
                columnas.deep_view().len() == k,
                forall|m: int|
                    0 <= m < k ==> columnas.deep_view()[m] == recortar(partesd[m]),
            decreases partes@.len() - k,
        {
            proof {
                assert(partesd[k as int] =~= partes@[k as int]@);
            }
            let ghost cols0 = columnas.deep_view();
            let recortada = recortar_v(&partes[k]);
            columnas.push(a_cadena(&recortada));
            proof {
                assert(columnas.deep_view() =~~= cols0.push(recortar(partesd[k as int])));
            }
            k += 1;
        }
        proof {
            assert(columnas.deep_view() =~~= partesd.map_values(|s: Seq<char>| recortar(s)));
        }
        let campos = match Self::obtener_campos(query, pf) {
            Ok(c) => c,
            Err(e) => {
                return Err(e);
            },
        };
        let (tabla, ws, ob, ops) = campos;
        Ok(Select::new(columnas, tabla, Some(ws), ob, Some(ops)))
    }
}

} // verus!

verus! {

/// The spec-level image of a parsed `Update`.
pub ghost struct ActualizacionEsp {
    pub tabla: Seq<char>,
    pub set: Seq<char>,
    pub clausulas: Option<(Seq<ClausulaEsp>, Seq<LogicalOperators>)>,
}

pub open spec fn actualizacion_coincide(u: Update, e: ActualizacionEsp) -> bool {
    &&& u.tabla@ == e.tabla
    &&& u.set@ == e.set
    &&& match (u.where_clauses, e.clausulas) {
        (Some(ws), Some(p)) => clausulas_coinciden(ws@, p.0) && (match u.operacion_logica {
            Some(os) => os@ == p.1,
            None => false,
        }),
        (None, None) => u.operacion_logica is None,
        _ => false,
    }
}

/// What `UPDATE` statement text parses to: the table before `SET`, the raw
/// `SET` text, and the parsed WHERE part when `WHERE` occurs.
pub open spec fn actualizacion_de(q: Seq<char>) -> Option<ActualizacionEsp> {
    match encuentra(q, kw_set()) {
        None => None,
        Some(ps) => {
            let lt = recortar(q.subrange(0, ps));
            if lt.len() < 7 {
                None
            } else {
                let tabla = recortar(lt.subrange(7, lt.len() as int));
                let lsw = recortar(q.subrange(ps + 3, q.len() as int));
                let resto = recorta_fin_char(lsw, ';');
                match encuentra(resto, kw_where()) {
                    Some(pw) => {
                        let linea_set = recortar(resto.subrange(0, pw));
                        let wsub = recortar(resto.subrange(pw, resto.len() as int));
                        match donde_de(wsub) {
                            None => None,
                            Some(p) => Some(
                                ActualizacionEsp { tabla, set: linea_set, clausulas: Some(p) },
                            ),
                        }
                    },
                    None => Some(ActualizacionEsp { tabla, set: resto, clausulas: None }),
                }
            }
        },
    }
}

impl Update {
    /// An `UPDATE` statement built from its parts.
    pub fn new(
        tabla: &str,
        set: &str,
        where_clauses: Option<Vec<WhereClause>>,
        operacion_logica: Option<Vec<LogicalOperators>>,
    ) -> (r: Self)
        ensures
            r.tabla@ == tabla@,
            r.set@ == set@,
            r.where_clauses == where_clauses,
            r.operacion_logica == operacion_logica,
    {
        Update { tabla: tabla.to_owned(), set: set.to_owned(), where_clauses, operacion_logica }
    }

    /// Parses `UPDATE` statement text into the table, the raw `SET` text
    /// and the optional WHERE part.
    pub fn update_parsear_query(query: &str) -> (r: Result<Self, ErrorPrograma>)
        ensures
            match r {
                Ok(u) => actualizacion_de(query@) is Some && actualizacion_coincide(
                    u,
                    actualizacion_de(query@)->Some_0,
                ),
                Err(e) => actualizacion_de(query@) is None && e.tipo_spec() == ErrorTipo::Syntax,
            },
    {
        let q = a_chars(query);
        let patron_set = pat_set();
        let ps = match encuentra_v(&q, &patron_set) {
            Some(p) => p,
            None => {
                return Err(
                    ErrorPrograma::new(
                        ErrorTipo::Syntax,
                        "No se encontro el SET dentro de la query, la sintaxis valida es: UPDATE FROM <tabla> WHERE <condiciones>.",
                    ),
                );
            },
        };
        proof {
            lemma_encuentra(q@, kw_set());
        }
        let lt_cruda = subvec(&q, 0, ps);
        let lt = recortar_v(&lt_cruda);
        if lt.len() < 7 {
            return Err(
                ErrorPrograma::new(
                    ErrorTipo::Syntax,
                    "No se encontro el nombre de la tabla en la query.",
                ),
            );
        }
        let cola_tabla = subvec(&lt, 7, lt.len());
        let tabla_rec = recortar_v(&cola_tabla);
        let tabla = a_cadena(&tabla_rec);
        let n = q.len();
        let resto_set = subvec(&q, ps + 3, n);
        let lsw = recortar_v(&resto_set);
        let resto = recorta_fin_char_v(&lsw, ';');
        let patron_where = pat_where();
        match encuentra_v(&resto, &patron_where) {
            Some(pw) => {
                proof {
                    lemma_encuentra(resto@, kw_where());
                }
                let set_cruda = subvec(&resto, 0, pw);
                let set_rec = recortar_v(&set_cruda);
                let linea_set = a_cadena(&set_rec);
                let wsub_cruda = subvec(&resto, pw, resto.len());
                let wsub_rec = recortar_v(&wsub_cruda);
                let wsub = a_cadena(&wsub_rec);
                match WhereClause::clasificar_where_clause(wsub.as_str()) {
                    Ok(p) => {
                        let (ws, ops) = p;
                        Ok(Update::new(tabla.as_str(), linea_set.as_str(), Some(ws), Some(ops)))
                    },
                    Err(e) => Err(e),
                }
            },
            None => {
                let set_txt = a_cadena(&resto);
                Ok(Update::new(tabla.as_str(), set_txt.as_str(), None, None))
            },
        }
    }
}

/// The spec-level image of a parsed `Delete`.
pub ghost struct BorradoEsp {
    pub tabla: Seq<char>,
    pub clausulas: Seq<ClausulaEsp>,
    pub conectores: Seq<LogicalOperators>,
}

pub open spec fn borrado_coincide(d: Delete, e: BorradoEsp) -> bool {
    &&& d.tabla@ == e.tabla
    &&& match d.where_clauses {
        Some(ws) => clausulas_coinciden(ws@, e.clausulas),
        None => false,
    }
    &&& match d.operacion_logica {
        Some(os) => os@ == e.conectores,
        None => false,
    }
}

/// What `DELETE` statement text parses to: it must carry `WHERE` and start
/// with `DELETE FROM`; the table stands between them.
pub open spec fn borrado_de(q: Seq<char>) -> Option<BorradoEsp> {
    match encuentra(q, kw_where()) {
        None => None,
        Some(pw) => {
            if !empieza_con(q, kw_delete_from()) {
                None
            } else {
                let lt = recortar(q.subrange(0, pw));
                if lt.len() < 12 {
                    None
                } else {
                    let tabla = recortar(lt.subrange(12, lt.len() as int));
                    let resto = recorta_fin_char(q.subrange(pw, q.len() as int), ';');
                    match donde_de(resto) {
                        None => None,
                        Some(p) => Some(
                            BorradoEsp { tabla, clausulas: p.0, conectores: p.1 },
                        ),
                    }
                }
            }
        },
    }
}

impl Delete {
    /// A `DELETE` statement built from its parts.
    pub fn new(
        tabla: &str,
        where_clauses: Option<Vec<WhereClause>>,
        operacion_logica: Option<Vec<LogicalOperators>>,
    ) -> (r: Self)
        ensures
            r.tabla@ == tabla@,
            r.where_clauses == where_clauses,
            r.operacion_logica == operacion_logica,
    {
        Delete { tabla: tabla.to_owned(), where_clauses, operacion_logica }
    }

    /// Parses `DELETE` statement text; a `DELETE` without `WHERE` is a
    /// `Syntax` error.
    pub fn delete_parsear_query(query: &str) -> (r: Result<Self, ErrorPrograma>)
        ensures
            match r {
                Ok(d) => borrado_de(query@) is Some && borrado_coincide(
                    d,
                    borrado_de(query@)->Some_0,
                ),
                Err(e) => borrado_de(query@) is None && e.tipo_spec() == ErrorTipo::Syntax,
            },
    {
        let q = a_chars(query);
        let patron_where = pat_where();
        let pw = match encuentra_v(&q, &patron_where) {
            Some(p) => p,
            None => {
                return Err(
                    ErrorPrograma::new(
                        ErrorTipo::Syntax,
                        "No se encontro WHERE dentro de la query, la sintaxis valida es: DELETE FROM <tabla> WHERE <condicion>.",
                    ),
                );
            },
        };
        proof {
            lemma_encuentra(q@, kw_where());
        }
        let patron_df = pat_delete_from();
        if !empieza_con_v(&q, &patron_df) {
            return Err(
                ErrorPrograma::new(
                    ErrorTipo::Syntax,
                    "No se encontro DELETE FROM dentro de la query, la sintaxis valida es: SELECT <columnas> FROM <tabla>.",
                ),
            );
        }
        let lt_cruda = subvec(&q, 0, pw);
        let lt = recortar_v(&lt_cruda);
        if lt.len() < 12 {
            return Err(
                ErrorPrograma::new(
                    ErrorTipo::Syntax,
                    "No se encontro el nombre de la tabla en la query.",
                ),
            );
        }
        let cola_tabla = subvec(&lt, 12, lt.len());
        let tabla_rec = recortar_v(&cola_tabla);
        let tabla = a_cadena(&tabla_rec);
        let n = q.len();
        let resto_crudo = subvec(&q, pw, n);
        let resto = recorta_fin_char_v(&resto_crudo, ';');
        match WhereClause::clasificar_where_clause(a_cadena(&resto).as_str()) {
            Ok(p) => {
                let (ws, ops) = p;
                Ok(Delete::new(tabla.as_str(), Some(ws), Some(ops)))
            },
            Err(e) => Err(e),
        }
    }
}

/// Which statement kind the text announces with its leading keyword.
pub open spec fn tipo_de(q: Seq<char>) -> QueryType {
    if empieza_con(q, kw_select()) {
        QueryType::Select
    } else if empieza_con(q, kw_insert_into()) {
        QueryType::Insert
    } else if empieza_con(q, kw_update()) {
        QueryType::Update
    } else if empieza_con(q, kw_delete()) {
        QueryType::Delete
    } else {
        QueryType::Desconocido
    }
}

/// Reads the leading keyword of the statement text.
pub fn identificar_tipo(query: &str) -> (r: QueryType)
    ensures
        r == tipo_de(query@),
{
    let q = a_chars(query);
    let p_select = pat_select();
    let p_insert = pat_insert_into();
    let p_update = pat_update();
    let p_delete = pat_delete();
    if empieza_con_v(&q, &p_select) {
        QueryType::Select
    } else if empieza_con_v(&q, &p_insert) {
        QueryType::Insert
    } else if empieza_con_v(&q, &p_update) {
        QueryType::Update
    } else if empieza_con_v(&q, &p_delete) {
        QueryType::Delete
    } else {
        QueryType::Desconocido
    }
}

/// A parsed statement of any of the four kinds.
#[derive(Debug)]
pub enum Consulta {
    Select(Select),
    Insert(Insert),
    Update(Update),
    Delete(Delete),
}

/// Identifies the statement kind by its leading keyword and parses the text
/// into a typed statement; text that announces no kind is a `Syntax` error.
/// The caller applies the statement to its table.
pub fn analisar_query(query: &str) -> (r: Result<Consulta, ErrorPrograma>)
    ensures
        match tipo_de(query@) {
            QueryType::Insert => match r {
                Ok(c) => match c {
                    Consulta::Insert(ins) => insercion_de(query@) is Some && insercion_coincide(
                        ins,
                        insercion_de(query@)->Some_0,
                    ),
                    _ => false,
                },
                Err(e) => insercion_de(query@) is None && e.tipo_spec() == ErrorTipo::Syntax,
            },
            QueryType::Select => match r {
                Ok(c) => match c {
                    Consulta::Select(s) => seleccion_de(query@) is Ok && seleccion_coincide(
                        s,
                        seleccion_de(query@)->Ok_0,
                    ),
                    _ => false,
                },
                Err(e) => seleccion_de(query@) is Err && e.tipo_spec() == seleccion_de(
                    query@,
                )->Err_0,
            },
            QueryType::Update => match r {
                Ok(c) => match c {
                    Consulta::Update(u) => actualizacion_de(query@) is Some
                        && actualizacion_coincide(u, actualizacion_de(query@)->Some_0),
                    _ => false,
                },
                Err(e) => actualizacion_de(query@) is None && e.tipo_spec() == ErrorTipo::Syntax,
            },
            QueryType::Delete => match r {
                Ok(c) => match c {
                    Consulta::Delete(d) => borrado_de(query@) is Some && borrado_coincide(
                        d,
                        borrado_de(query@)->Some_0,
                    ),
                    _ => false,
                },
                Err(e) => borrado_de(query@) is None && e.tipo_spec() == ErrorTipo::Syntax,
            },
            QueryType::Desconocido => match r {
                Ok(_) => false,
                Err(e) => e.tipo_spec() == ErrorTipo::Syntax,
            },
        },
{
    match identificar_tipo(query) {
        QueryType::Insert => match Insert::insert_parsear_query(query) {
            Ok(ins) => Ok(Consulta::Insert(ins)),
            Err(e) => Err(e),
        },
        QueryType::Select => match Select::select_parsear_query(query) {
            Ok(s) => Ok(Consulta::Select(s)),
            Err(e) => Err(e),
        },
        QueryType::Update => match Update::update_parsear_query(query) {
            Ok(u) => Ok(Consulta::Update(u)),
            Err(e) => Err(e),
        },
        QueryType::Delete => match Delete::delete_parsear_query(query) {
            Ok(d) => Ok(Consulta::Delete(d)),
            Err(e) => Err(e),
        },
        QueryType::Desconocido => Err(
            ErrorPrograma::new(
                ErrorTipo::Syntax,
                "La query ingresada es desconocida, no corresponde con SELECT, INSERT, UPDATE o DELETE.",
            ),
        ),
    }
}

} // verus!
