//! WHERE-predicate evaluation: operand resolution against a row, the
//! numeric-versus-string comparison rule, and the folding of leaf results
//! through the AND/OR connector sequence.

use crate::cadenas::a_chars;
use crate::cadenas::es_int_spec;
use crate::cadenas::igual_chars;
use crate::cadenas::igual_str_chars;
use crate::cadenas::lex_lt;
use crate::cadenas::lex_lt_v;
use crate::cadenas::parsear_int_v;
use crate::cadenas::sin_comillas;
use crate::cadenas::sin_comillas_v;
use crate::cadenas::valor_int_spec;
use crate::errors::ErrorPrograma;
use crate::errors::ErrorTipo;
use crate::query_identifier::LogicalOperators;
use crate::query_identifier::Comparaciones;
use crate::query_identifier::WhereClause;
use vstd::prelude::*;

verus! {

/// The first index of `x` among the columns, or their number when absent.
pub open spec fn pos_col(cols: Seq<Seq<char>>, x: Seq<char>) -> int
    decreases cols.len(),
{
    if cols.len() == 0 {
        0
    } else if cols[0] == x {
        0
    } else {
        1 + pos_col(cols.drop_first(), x)
    }
}

/// `x` names a column.
pub open spec fn contiene_col(cols: Seq<Seq<char>>, x: Seq<char>) -> bool {
    pos_col(cols, x) < cols.len()
}

pub proof fn lemma_pos_col(cols: Seq<Seq<char>>, x: Seq<char>)
    ensures
        0 <= pos_col(cols, x) <= cols.len(),
        pos_col(cols, x) < cols.len() ==> cols[pos_col(cols, x)] == x,
        forall|j: int| 0 <= j < pos_col(cols, x) ==> cols[j] != x,
    decreases cols.len(),
{
    if cols.len() > 0 && cols[0] != x {
        lemma_pos_col(cols.drop_first(), x);
        let p = pos_col(cols.drop_first(), x);
        assert(forall|j: int| 0 <= j < p ==> cols.drop_first()[j] != x);
        assert forall|j: int| 0 <= j < 1 + p implies cols[j] != x by {
            if j > 0 {
                assert(cols[j] == cols.drop_first()[j - 1]);
            }
        }
    }
}

/// The first index of `x` among the columns.
pub fn busca_col(cols: &Vec<String>, x: &Vec<char>) -> (r: usize)
    ensures
        r as int == pos_col(cols.deep_view(), x@),
{
    proof {
        lemma_pos_col(cols.deep_view(), x@);
    }
    let mut i: usize = 0;
    while i < cols.len()
        invariant
            i <= cols@.len(),
            cols.deep_view().len() == cols@.len(),
            forall|j: int| 0 <= j < i ==> cols.deep_view()[j] != x@,
        decreases cols@.len() - i,
    {
        proof {
            assert(cols.deep_view()[i as int] =~= cols@[i as int]@);
        }
        if igual_str_chars(cols[i].as_str(), x) {
            proof {
                lemma_pos_col(cols.deep_view(), x@);
                let p = pos_col(cols.deep_view(), x@);
                if p < i as int {
                    assert(cols.deep_view()[p] == x@);
                }
                if p > i as int {
                    assert(cols.deep_view()[i as int] != x@);
                }
            }
            return i;
        }
        i += 1;
    }
    proof {
        lemma_pos_col(cols.deep_view(), x@);
        let p = pos_col(cols.deep_view(), x@);
        if p < cols.deep_view().len() {
            assert(cols.deep_view()[p] == x@);
        }
    }
    i
}

/// An operand with its surrounding quotes stripped names a column or stays
/// a literal; a column operand denotes the row's field at that column.
pub open spec fn valor_resuelto(fila: Seq<Seq<char>>, cols: Seq<Seq<char>>, op: Seq<char>) -> Seq<
    char,
> {
    let rec = sin_comillas(op);
    if contiene_col(cols, rec) {
        if pos_col(cols, rec) < fila.len() {
            fila[pos_col(cols, rec)]
        } else {
            Seq::empty()
        }
    } else {
        rec
    }
}

/// The operand text carried quotes of its own.
pub open spec fn op_citada(op: Seq<char>) -> bool {
    sin_comillas(op) != op
}

/// The operand takes part in a numeric comparison: a column whose field
/// parses as an integer, or a plain unquoted integer literal.
pub open spec fn op_numerico(fila: Seq<Seq<char>>, cols: Seq<Seq<char>>, op: Seq<char>) -> bool {
    let rec = sin_comillas(op);
    if contiene_col(cols, rec) {
        es_int_spec(valor_resuelto(fila, cols, op))
    } else {
        !op_citada(op) && es_int_spec(rec)
    }
}

/// A comparator applied to two integers.
pub open spec fn cmp_enteros(c: Comparaciones, a: int, b: int) -> bool {
    match c {
        Comparaciones::Igual => a == b,
        Comparaciones::Diferente => a != b,
        Comparaciones::Mayor => a > b,
        Comparaciones::Menor => a < b,
        Comparaciones::MayorIgual => a >= b,
        Comparaciones::MenorIgual => a <= b,
    }
}

/// A comparator applied to two strings, lexicographically.
pub open spec fn cmp_cadenas(c: Comparaciones, a: Seq<char>, b: Seq<char>) -> bool {
    match c {
        Comparaciones::Igual => a == b,
        Comparaciones::Diferente => a != b,
        Comparaciones::Mayor => lex_lt(b, a),
        Comparaciones::Menor => lex_lt(a, b),
        Comparaciones::MayorIgual => !lex_lt(a, b),
        Comparaciones::MenorIgual => !lex_lt(b, a),
    }
}

/// One leaf comparison evaluated against a row: both operands resolved,
/// compared numerically when both sides are numeric and as strings
/// otherwise, with `NOT` applied last.
pub open spec fn condicion_spec(fila: Seq<Seq<char>>, cols: Seq<Seq<char>>, wc: WhereClause) -> bool {
    let v1 = valor_resuelto(fila, cols, wc.valor1@);
    let v2 = valor_resuelto(fila, cols, wc.valor2@);
    let res = if op_numerico(fila, cols, wc.valor1@) && op_numerico(fila, cols, wc.valor2@) {
        cmp_enteros(wc.comparacion, valor_int_spec(v1), valor_int_spec(v2))
    } else {
        cmp_cadenas(wc.comparacion, v1, v2)
    };
    if wc.es_not {
        !res
    } else {
        res
    }
}

/// Resolves one operand against a row: the final text, its parsed value,
/// and whether it can take part in a numeric comparison.
pub fn obtener_valor(valores: &Vec<String>, columnas_csv: &Vec<String>, valor: &str) -> (r: (
    String,
    i64,
    bool,
))
    requires
        valores@.len() == columnas_csv@.len(),
    ensures
        r.0@ == valor_resuelto(valores.deep_view(), columnas_csv.deep_view(), valor@),
        r.2 == op_numerico(valores.deep_view(), columnas_csv.deep_view(), valor@),
        r.2 ==> r.1 as int == valor_int_spec(
            valor_resuelto(valores.deep_view(), columnas_csv.deep_view(), valor@),
        ),
{
    let vchars = a_chars(valor);
    let rec = sin_comillas_v(&vchars);
    let idx = busca_col(columnas_csv, &rec);
    if idx < columnas_csv.len() {
        proof {
            assert(valores.deep_view().len() == valores@.len());
            assert(valores.deep_view()[idx as int] =~= valores@[idx as int]@);
        }
        let texto = valores[idx].clone();
        let tchars = a_chars(texto.as_str());
        match parsear_int_v(&tchars) {
            Some(x) => (texto, x, true),
            None => (texto, 0, false),
        }
    } else {
        let citada = !igual_chars(&rec, &vchars);
        let texto_chars = rec;
        if citada {
            (crate::cadenas::a_cadena(&texto_chars), 0, false)
        } else {
            match parsear_int_v(&texto_chars) {
                Some(x) => (crate::cadenas::a_cadena(&texto_chars), x, true),
                None => (crate::cadenas::a_cadena(&texto_chars), 0, false),
            }
        }
    }
}

/// Evaluates one leaf comparison against a row.
pub fn cumple_condicion(valores: &Vec<String>, columnas_csv: &Vec<String>, where_clause:
    &WhereClause) -> (r: bool)
    requires
        valores@.len() == columnas_csv@.len(),
    ensures
        r == condicion_spec(valores.deep_view(), columnas_csv.deep_view(), *where_clause),
{
    let (s1, n1, b1) = obtener_valor(valores, columnas_csv, where_clause.valor1.as_str());
    let (s2, n2, b2) = obtener_valor(valores, columnas_csv, where_clause.valor2.as_str());
    let resultado = if b1 && b2 {
        match where_clause.comparacion {
            Comparaciones::Igual => n1 == n2,
            Comparaciones::Diferente => n1 != n2,
            Comparaciones::Mayor => n1 > n2,
            Comparaciones::Menor => n1 < n2,
            Comparaciones::MayorIgual => n1 >= n2,
            Comparaciones::MenorIgual => n1 <= n2,
        }
    } else {
        let c1 = a_chars(s1.as_str());
        let c2 = a_chars(s2.as_str());
        match where_clause.comparacion {
            Comparaciones::Igual => igual_chars(&c1, &c2),
            Comparaciones::Diferente => !igual_chars(&c1, &c2),
            Comparaciones::Mayor => lex_lt_v(&c2, &c1),
            Comparaciones::Menor => lex_lt_v(&c1, &c2),
            Comparaciones::MayorIgual => !lex_lt_v(&c1, &c2),
            Comparaciones::MenorIgual => !lex_lt_v(&c2, &c1),
        }
    };
    if where_clause.es_not {
        !resultado
    } else {
        resultado
    }
}

/// The leaf results of all clauses against one row.
pub open spec fn hojas_de(fila: Seq<Seq<char>>, cols: Seq<Seq<char>>, wcs: Seq<WhereClause>) -> Seq<
    bool,
> {
    Seq::new(wcs.len(), |i: int| condicion_spec(fila, cols, wcs[i]))
}

/// One step per clause of the connector folding: `AND` extends or starts a
/// conjunctive run, `OR` closes a run into a branch, and the end of the
/// sequence closes the final run.
pub open spec fn plegar_rec(
    hojas: Seq<bool>,
    conns: Seq<LogicalOperators>,
    i: int,
    res_and: bool,
    evaluando: bool,
    ors: Seq<bool>,
) -> (bool, Seq<bool>)
    decreases hojas.len() - i,
{
    if i < 0 || i >= hojas.len() {
        (res_and, ors)
    } else {
        let hoja = hojas[i];
        if i < conns.len() {
            match conns[i] {
                LogicalOperators::And => {
                    if evaluando {
                        plegar_rec(hojas, conns, i + 1, res_and && hoja, true, ors)
                    } else {
                        plegar_rec(hojas, conns, i + 1, hoja, true, ors)
                    }
                },
                LogicalOperators::Or => {
                    if evaluando {
                        plegar_rec(hojas, conns, i + 1, res_and, false, ors.push(res_and))
                    } else {
                        plegar_rec(hojas, conns, i + 1, res_and, false, ors)
                    }
                },
            }
        } else {
            let nuevo = if evaluando {
                res_and && hoja
            } else {
                hoja
            };
            plegar_rec(hojas, conns, i + 1, nuevo, evaluando, ors.push(nuevo))
        }
    }
}

/// The folding of all leaf results through the connectors: the final
/// conjunctive accumulator and the collected OR branches.
pub open spec fn plegar(hojas: Seq<bool>, conns: Seq<LogicalOperators>) -> (bool, Seq<bool>) {
    plegar_rec(hojas, conns, 0, true, false, Seq::empty())
}

/// Some branch holds.
pub open spec fn alguna(ors: Seq<bool>) -> bool {
    exists|i: int| 0 <= i < ors.len() && ors[i]
}

/// The whole predicate against one row: an empty clause list accepts the
/// row; otherwise the OR branches of the folding decide.
pub open spec fn filtro_spec(
    fila: Seq<Seq<char>>,
    cols: Seq<Seq<char>>,
    wcs: Seq<WhereClause>,
    conns: Seq<LogicalOperators>,
) -> bool {
    if wcs.len() == 0 {
        true
    } else {
        alguna(plegar(hojas_de(fila, cols, wcs), conns).1)
    }
}

/// Folds every clause's result through the connector sequence; gives back
/// the final conjunctive accumulator and the OR branches.
pub fn aplicar_filtro_extend(
    valores: &Vec<String>,
    columnas_csv: &Vec<String>,
    where_clauses: &Vec<WhereClause>,
    operadores_logicos: &Vec<LogicalOperators>,
) -> (r: (bool, Vec<bool>))
    requires
        valores@.len() == columnas_csv@.len(),
    ensures
        (r.0, r.1@) == plegar(
            hojas_de(valores.deep_view(), columnas_csv.deep_view(), where_clauses@),
            operadores_logicos@,
        ),
{
    let ghost hojas = hojas_de(valores.deep_view(), columnas_csv.deep_view(), where_clauses@);
    let ghost conns = operadores_logicos@;
    let mut resultado_and = true;
    let mut evaluando_and = false;
    let mut or_conditions: Vec<bool> = Vec::new();
    let mut i: usize = 0;
    proof {
        assert(or_conditions@ =~= Seq::<bool>::empty());
    }
    while i < where_clauses.len()
        invariant
            i <= where_clauses@.len(),
            valores@.len() == columnas_csv@.len(),
            hojas == hojas_de(valores.deep_view(), columnas_csv.deep_view(), where_clauses@),
            conns == operadores_logicos@,
            plegar(hojas, conns) == plegar_rec(
                hojas,
                conns,
                i as int,
                resultado_and,
                evaluando_and,
                or_conditions@,
            ),
        decreases where_clauses@.len() - i,
    {
        let resultado_actual = cumple_condicion(valores, columnas_csv, &where_clauses[i]);
        proof {
            assert(hojas[i as int] == resultado_actual);
        }
        if i < operadores_logicos.len() {
            match operadores_logicos[i] {
                LogicalOperators::And => {
                    if evaluando_and {
                        resultado_and = resultado_and && resultado_actual;
                    } else {
                        resultado_and = resultado_actual;
                        evaluando_and = true;
                    }
                },
                LogicalOperators::Or => {
                    if evaluando_and {
                        or_conditions.push(resultado_and);
                        evaluando_and = false;
                    }
                },
            }
        } else {
            if evaluando_and {
                resultado_and = resultado_and && resultado_actual;
            } else {
                resultado_and = resultado_actual;
            }
            or_conditions.push(resultado_and);
        }
        i += 1;
    }
    (resultado_and, or_conditions)
}

/// Evaluates the whole predicate against one row: an empty clause list
/// accepts the row, otherwise some OR branch of the folding must hold.
pub fn aplicar_filtro(
    valores: &Vec<String>,
    columnas_csv: &Vec<String>,
    where_clauses: &Vec<WhereClause>,
    operadores_logicos: &Vec<LogicalOperators>,
) -> (r: bool)
    requires
        valores@.len() == columnas_csv@.len(),
    ensures
        r == filtro_spec(
            valores.deep_view(),
            columnas_csv.deep_view(),
            where_clauses@,
            operadores_logicos@,
        ),
{
    if where_clauses.len() == 0 {
        return true;
    }
    let par = aplicar_filtro_extend(valores, columnas_csv, where_clauses, operadores_logicos);
    let or_conditions = par.1;
    let mut resultado_final = false;
    let mut i: usize = 0;
    while i < or_conditions.len()
        invariant
            i <= or_conditions@.len(),
            resultado_final == exists|j: int| 0 <= j < i && or_conditions@[j],
        decreases or_conditions@.len() - i,
    {
        if or_conditions[i] {
            resultado_final = true;
        }
        i += 1;
    }
    resultado_final
}

/// A clause's operands can be resolved against the header: one side a
/// column and the other a quoted or integer literal, or both sides columns.
pub open spec fn clausula_resoluble(cols: Seq<Seq<char>>, wc: WhereClause) -> bool {
    ||| contiene_col(cols, wc.valor1@) && (tiene_comilla(wc.valor2@) || es_int_spec(wc.valor2@))
    ||| contiene_col(cols, wc.valor2@) && (tiene_comilla(wc.valor1@) || es_int_spec(wc.valor1@))
    ||| contiene_col(cols, wc.valor1@) && contiene_col(cols, wc.valor2@)
}

/// The text holds a single quote somewhere.
pub open spec fn tiene_comilla(s: Seq<char>) -> bool {
    exists|i: int| 0 <= i < s.len() && s[i] == '\''
}

fn tiene_comilla_exec(s: &str) -> (r: bool)
    ensures
        r == tiene_comilla(s@),
{
    let v = a_chars(s);
    let mut i: usize = 0;
    while i < v.len()
        invariant
            v@ == s@,
            i <= v@.len(),
            forall|j: int| 0 <= j < i ==> v@[j] != '\'',
        decreases v@.len() - i,
    {
        if v[i] == '\'' {
            return true;
        }
        i += 1;
    }
    false
}

fn contiene_col_exec(cols: &Vec<String>, x: &str) -> (r: bool)
    ensures
        r == contiene_col(cols.deep_view(), x@),
{
    let v = a_chars(x);
    let idx = busca_col(cols, &v);
    proof {
        assert(cols.deep_view().len() == cols@.len());
    }
    idx < cols.len()
}

/// Checks that every requested column names a header column.
pub fn verificar_existen_columnas_query(columnas_query: &Vec<String>, columnas_csv: &Vec<String>)
    -> (r: Result<(), ErrorPrograma>)
    ensures
        match r {
            Ok(_) => forall|i: int|
                0 <= i < columnas_query@.len() ==> contiene_col(
                    columnas_csv.deep_view(),
                    columnas_query@[i]@,
                ),
            Err(e) => (exists|i: int|
                0 <= i < columnas_query@.len() && !contiene_col(
                    columnas_csv.deep_view(),
                    columnas_query@[i]@,
                )) && e.tipo_spec() == ErrorTipo::Column,
        },
{
    let mut i: usize = 0;
    while i < columnas_query.len()
        invariant
            i <= columnas_query@.len(),
            forall|j: int|
                0 <= j < i ==> contiene_col(columnas_csv.deep_view(), columnas_query@[j]@),
        decreases columnas_query@.len() - i,
    {
        if !contiene_col_exec(columnas_csv, columnas_query[i].as_str()) {
            let mut descripcion = String::from_str("La columna ");
            descripcion.append(columnas_query[i].as_str());
            descripcion.append(" no fue encontrada en el archivo csv.");
            return Err(ErrorPrograma::new(ErrorTipo::Column, descripcion.as_str()));
        }
        i += 1;
    }
    Ok(())
}

/// Checks that every WHERE clause can be resolved against the header.
pub fn verificar_existen_columnas_where_clause(
    where_clauses: &Option<Vec<WhereClause>>,
    columnas_csv: &Vec<String>,
) -> (r: Result<(), ErrorPrograma>)
    ensures
        match r {
            Ok(_) => where_clauses is Some ==> forall|i: int|
                0 <= i < where_clauses->Some_0@.len() ==> clausula_resoluble(
                    columnas_csv.deep_view(),
                    where_clauses->Some_0@[i],
                ),
            Err(e) => where_clauses is Some && (exists|i: int|
                0 <= i < where_clauses->Some_0@.len() && !clausula_resoluble(
                    columnas_csv.deep_view(),
                    where_clauses->Some_0@[i],
                )) && e.tipo_spec() == ErrorTipo::Column,
        },
{
    match where_clauses {
        Some(clauses) => {
            let mut i: usize = 0;
            while i < clauses.len()
                invariant
                    i <= clauses@.len(),
                    *where_clauses == Some(*clauses),
                    forall|j: int|
                        0 <= j < i ==> clausula_resoluble(columnas_csv.deep_view(), clauses@[j]),
                decreases clauses@.len() - i,
            {
                let clause = &clauses[i];
                let col1 = contiene_col_exec(columnas_csv, clause.valor1.as_str());
                let col2 = contiene_col_exec(columnas_csv, clause.valor2.as_str());
                let lit2 = tiene_comilla_exec(clause.valor2.as_str()) || crate::cadenas::es_int(
                    clause.valor2.as_str(),
                );
                let lit1 = tiene_comilla_exec(clause.valor1.as_str()) || crate::cadenas::es_int(
                    clause.valor1.as_str(),
                );
                if !((col1 && lit2) || (col2 && lit1) || (col1 && col2)) {
                    proof {
                        assert(where_clauses->Some_0 == *clauses);
                        assert(!clausula_resoluble(columnas_csv.deep_view(), clauses@[i as int]));
                        assert(exists|k: int|
                            0 <= k < clauses@.len() && !clausula_resoluble(
                                columnas_csv.deep_view(),
                                clauses@[k],
                            ));
                    }
                    let mut descripcion = String::from_str("Ninguno de estos dos valores '");
                    descripcion.append(clause.valor1.as_str());
                    descripcion.append("' y '");
                    descripcion.append(clause.valor2.as_str());
                    descripcion.append(
                        "' en la WHERE clause fue encontrado como una columna en el csv.",
                    );
                    return Err(ErrorPrograma::new(ErrorTipo::Column, descripcion.as_str()));
                }
                i += 1;
            }
            Ok(())
        },
        None => Ok(()),
    }
}

/// Whether one row satisfies the optional predicate: no clauses, or an
/// empty clause list, accepts the row.
pub open spec fn linea_cumple(
    fila: Seq<Seq<char>>,
    cols: Seq<Seq<char>>,
    wcs: Option<Vec<WhereClause>>,
    ops: Option<Vec<LogicalOperators>>,
) -> bool {
    match wcs {
        Some(cs) => {
            if cs@.len() == 0 {
                true
            } else {
                match ops {
                    Some(os) => filtro_spec(fila, cols, cs@, os@),
                    None => filtro_spec(fila, cols, cs@, Seq::empty()),
                }
            }
        },
        None => true,
    }
}

/// Evaluates the optional predicate of a mutating statement against a row.
pub fn verificar_si_linea_cumple_condicion(
    fila: &Vec<String>,
    where_clauses: &Option<Vec<WhereClause>>,
    operacion_logica: &Option<Vec<LogicalOperators>>,
    columnas_csv: &Vec<String>,
) -> (r: bool)
    requires
        fila@.len() == columnas_csv@.len(),
    ensures
        r == linea_cumple(
            fila.deep_view(),
            columnas_csv.deep_view(),
            *where_clauses,
            *operacion_logica,
        ),
{
    match where_clauses {
        Some(condiciones) => {
            if condiciones.len() == 0 {
                true
            } else {
                match operacion_logica {
                    Some(operadores) => aplicar_filtro(fila, columnas_csv, condiciones, operadores),
                    None => {
                        let vacios: Vec<LogicalOperators> = Vec::new();
                        proof {
                            assert(vacios@ =~= Seq::<LogicalOperators>::empty());
                        }
                        aplicar_filtro(fila, columnas_csv, condiciones, &vacios)
                    },
                }
            }
        },
        None => true,
    }
}

} // verus!
