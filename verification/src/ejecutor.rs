//! Statement execution against an in-memory table: a header (the column
//! names in file order) and a sequence of rows, one field per column.
//! SELECT produces its output rows, INSERT the rows to append, UPDATE and
//! DELETE the table's full replacement body. Reading and writing the
//! table's file belongs to the caller.

use crate::cadenas::a_cadena;
use crate::cadenas::a_chars;
use crate::cadenas::dividir;
use crate::cadenas::dividir_v;
use crate::cadenas::quitar_par_comillas;
use crate::cadenas::quitar_par_comillas_v;
use crate::cadenas::recortar;
use crate::cadenas::recortar_v;
use crate::condiciones::clausula_resoluble;
use crate::condiciones::contiene_col;
use crate::condiciones::filtro_spec;
use crate::condiciones::linea_cumple;
use crate::condiciones::pos_col;
use crate::condiciones::busca_col;
use crate::condiciones::lemma_pos_col;
use crate::condiciones::verificar_existen_columnas_query;
use crate::condiciones::verificar_existen_columnas_where_clause;
use crate::condiciones::verificar_si_linea_cumple_condicion;
use crate::errors::ErrorPrograma;
use crate::errors::ErrorTipo;
use crate::orden::filas_validas;
use crate::orden::ordenar_filas;
use crate::orden::ordenar_lineas_select;
use crate::query_identifier::Delete;
use crate::query_identifier::Select;
use crate::query_identifier::Update;
use vstd::prelude::*;

verus! {

/// The fields of one file line: split on commas, each field trimmed.
pub open spec fn campos_linea(s: Seq<char>) -> Seq<Seq<char>> {
    dividir(s, ',').map_values(|x: Seq<char>| recortar(x))
}

/// Splits one file line into its trimmed fields.
pub fn dividir_linea(linea: &str) -> (r: Vec<String>)
    ensures
        r.deep_view() == campos_linea(linea@),
{
    let v = a_chars(linea);
    let partes = dividir_v(&v, ',');
    let ghost partesd = partes.deep_view();
    let mut r: Vec<String> = Vec::new();
    let mut k: usize = 0;
    while k < partes.len()
        invariant
            k <= partes@.len(),
            partesd == partes.deep_view(),
            r.deep_view().len() == k,
            forall|m: int| 0 <= m < k ==> r.deep_view()[m] == recortar(partesd[m]),
        decreases partes@.len() - k,
    {
        proof {
            assert(partesd[k as int] =~= partes@[k as int]@);
        }
        let ghost r0 = r.deep_view();
        let recortada = recortar_v(&partes[k]);
        r.push(a_cadena(&recortada));
        proof {
            assert(r.deep_view() =~~= r0.push(recortar(partesd[k as int])));
        }
        k += 1;
    }
    proof {
        assert(r.deep_view() =~~= partesd.map_values(|x: Seq<char>| recortar(x)));
    }
    r
}

/// A fresh copy of a row of fields.
pub fn clonar_cadenas(v: &Vec<String>) -> (r: Vec<String>)
    ensures
        r.deep_view() == v.deep_view(),
        r@.len() == v@.len(),
{
    let mut r: Vec<String> = Vec::new();
    let mut i: usize = 0;
    while i < v.len()
        invariant
            i <= v@.len(),
            r.deep_view().len() == i,
            forall|m: int| 0 <= m < i ==> r.deep_view()[m] == v.deep_view()[m],
        decreases v@.len() - i,
    {
        let ghost r0 = r.deep_view();
        r.push(v[i].clone());
        proof {
            assert(r.deep_view() =~~= r0.push(v@[i as int]@));
            assert(v.deep_view()[i as int] =~= v@[i as int]@);
        }
        i += 1;
    }
    proof {
        assert(r.deep_view() =~~= v.deep_view());
    }
    r
}

/// Whether a row passes a SELECT's predicate: no predicate, an empty
/// clause list, or a missing connector list accepts the row.
pub open spec fn fila_pasa_select(fila: Seq<Seq<char>>, cols: Seq<Seq<char>>, s: Select) -> bool {
    if s.where_clauses is Some {
        if s.where_clauses->Some_0@.len() == 0 {
            true
        } else if s.operacion_logica is Some {
            filtro_spec(fila, cols, s.where_clauses->Some_0@, s.operacion_logica->Some_0@)
        } else {
            true
        }
    } else {
        true
    }
}

/// The rows that pass a SELECT's predicate, in their original order.
pub open spec fn filtradas_select(
    lineas: Seq<Vec<String>>,
    cols: Seq<Seq<char>>,
    s: Select,
) -> Seq<Vec<String>>
    decreases lineas.len(),
{
    if lineas.len() == 0 {
        lineas
    } else {
        let resto = filtradas_select(lineas.drop_first(), cols, s);
        if fila_pasa_select(lineas[0].deep_view(), cols, s) {
            seq![lineas[0]] + resto
        } else {
            resto
        }
    }
}

/// Keeps the rows that pass the SELECT's predicate.
pub fn filtrar_lineas_que_cumplen_con_where_clause(
    lineas: Vec<Vec<String>>,
    select: &Select,
    columnas_csv: &Vec<String>,
) -> (r: Vec<Vec<String>>)
    requires
        filas_validas(lineas@, columnas_csv@.len() as int),
    ensures
        r@ == filtradas_select(lineas@, columnas_csv.deep_view(), *select),
        filas_validas(r@, columnas_csv@.len() as int),
{
    let ghost todas = lineas@;
    let ghost colsd = columnas_csv.deep_view();
    let mut restantes = lineas;
    let mut res: Vec<Vec<String>> = Vec::new();
    proof {
        assert(restantes@ =~= todas.subrange(0, todas.len() as int));
        assert(res@ + filtradas_select(todas, colsd, *select) =~= filtradas_select(
            todas,
            colsd,
            *select,
        ));
    }
    let total = restantes.len();
    let mut procesadas: usize = 0;
    while restantes.len() > 0
        invariant
            colsd == columnas_csv.deep_view(),
            todas.len() == total,
            procesadas <= todas.len(),
            restantes@ == todas.subrange(procesadas as int, todas.len() as int),
            filas_validas(todas, columnas_csv@.len() as int),
            filtradas_select(todas, colsd, *select) == res@ + filtradas_select(
                restantes@,
                colsd,
                *select,
            ),
            filas_validas(res@, columnas_csv@.len() as int),
        decreases restantes@.len(),
    {
        let ghost sub = restantes@;
        let ghost res0 = res@;
        proof {
            assert(sub[0] == todas[procesadas as int]);
            assert(todas[procesadas as int]@.len() == columnas_csv@.len());
            assert(sub.drop_first() =~= todas.subrange(procesadas as int + 1, todas.len() as int));
        }
        let fila = restantes.remove(0);
        let pasa = match &select.where_clauses {
            Some(condiciones) => {
                if condiciones.len() > 0 {
                    match &select.operacion_logica {
                        Some(operadores) => crate::condiciones::aplicar_filtro(
                            &fila,
                            columnas_csv,
                            condiciones,
                            operadores,
                        ),
                        None => true,
                    }
                } else {
                    true
                }
            },
            None => true,
        };
        proof {
            assert(pasa == fila_pasa_select(fila.deep_view(), colsd, *select));
        }
        if pasa {
            res.push(fila);
            proof {
                assert(res@ =~= res0.push(sub[0]));
                assert(res0 + (seq![sub[0]] + filtradas_select(sub.drop_first(), colsd, *select))
                    =~= res@ + filtradas_select(sub.drop_first(), colsd, *select));
            }
        }
        procesadas += 1;
    }
    proof {
        assert(filtradas_select(restantes@, colsd, *select) =~= Seq::<Vec<String>>::empty());
        assert(res@ + Seq::<Vec<String>>::empty() =~= res@);
    }
    res
}

/// The requested columns stand for every column when the first one is `*`.
pub open spec fn pide_todo(pedidas: Seq<Seq<char>>) -> bool {
    pedidas.len() > 0 && pedidas[0] == seq!['*']
}

/// Some requested column is `*`.
pub open spec fn alguna_asterisco(pedidas: Seq<Seq<char>>) -> bool {
    exists|i: int| 0 <= i < pedidas.len() && pedidas[i] == seq!['*']
}

/// One row projected to the requested columns, in the requested order;
/// `*` keeps the whole row.
pub open spec fn proyectar_fila(
    filad: Seq<Seq<char>>,
    colsd: Seq<Seq<char>>,
    pedidas: Seq<Seq<char>>,
) -> Seq<Seq<char>> {
    if pide_todo(pedidas) {
        filad
    } else {
        Seq::new(
            pedidas.len(),
            |i: int|
                {
                    let p = pos_col(colsd, pedidas[i]);
                    let idx = if p < colsd.len() {
                        p
                    } else {
                        0
                    };
                    if idx < filad.len() {
                        filad[idx]
                    } else {
                        Seq::empty()
                    }
                },
        )
    }
}

fn es_asterisco_exec(s: &str) -> (r: bool)
    ensures
        r == (s@ == seq!['*']),
{
    let v = a_chars(s);
    if v.len() == 1 && v[0] == '*' {
        proof {
            assert(v@ =~= seq!['*']);
        }
        true
    } else {
        proof {
            if v@ == seq!['*'] {
                assert(v@.len() == 1 && v@[0] == '*');
            }
        }
        false
    }
}

/// Projects every surviving row to the requested columns.
pub fn seleccionar_columnas_pedidas(
    lineas: &Vec<Vec<String>>,
    select: &Select,
    columnas_csv: &Vec<String>,
) -> (r: Vec<Vec<String>>)
    requires
        filas_validas(lineas@, columnas_csv@.len() as int),
    ensures
        r.deep_view().len() == lineas@.len(),
        forall|i: int|
            0 <= i < lineas@.len() ==> r.deep_view()[i] == proyectar_fila(
                lineas@[i].deep_view(),
                columnas_csv.deep_view(),
                select.columnas.deep_view(),
            ),
{
    let ghost colsd = columnas_csv.deep_view();
    let ghost pedidas = select.columnas.deep_view();
    let es_todo = select.columnas.len() > 0 && es_asterisco_exec(select.columnas[0].as_str());
    proof {
        assert(select.columnas.deep_view().len() == select.columnas@.len());
        if select.columnas@.len() > 0 {
            assert(pedidas[0] =~= select.columnas@[0]@);
        }
        assert(es_todo == pide_todo(pedidas));
    }
    let mut res: Vec<Vec<String>> = Vec::new();
    let mut i: usize = 0;
    while i < lineas.len()
        invariant
            i <= lineas@.len(),
            colsd == columnas_csv.deep_view(),
            pedidas == select.columnas.deep_view(),
            es_todo == pide_todo(pedidas),
            filas_validas(lineas@, columnas_csv@.len() as int),
            res.deep_view().len() == i,
            forall|m: int|
                0 <= m < i ==> res.deep_view()[m] == proyectar_fila(
                    lineas@[m].deep_view(),
                    colsd,
                    pedidas,
                ),
        decreases lineas@.len() - i,
    {
        let ghost res0 = res.deep_view();
        let fila = &lineas[i];
        if es_todo {
            let copia = clonar_cadenas(fila);
            res.push(copia);
            proof {
                assert(res.deep_view() =~~= res0.push(fila.deep_view()));
                assert(forall|m: int| 0 <= m < i as int ==> res.deep_view()[m] == res0[m]);
                assert(res.deep_view()[i as int] == lineas@[i as int].deep_view());
            }
        } else {
            let mut proyectada: Vec<String> = Vec::new();
            let mut k: usize = 0;
            while k < select.columnas.len()
                invariant
                    k <= select.columnas@.len(),
                    colsd == columnas_csv.deep_view(),
                    pedidas == select.columnas.deep_view(),
                    fila == &lineas@[i as int],
                    i < lineas@.len(),
                    filas_validas(lineas@, columnas_csv@.len() as int),
                    proyectada.deep_view().len() == k,
                    forall|m: int|
                        0 <= m < k ==> proyectada.deep_view()[m] == proyectar_fila(
                            lineas@[i as int].deep_view(),
                            colsd,
                            pedidas,
                        )[m],
                    !pide_todo(pedidas),
                decreases select.columnas@.len() - k,
            {
                let ghost p0 = proyectada.deep_view();
                proof {
                    assert(pedidas[k as int] =~= select.columnas@[k as int]@);
                    lemma_pos_col(colsd, pedidas[k as int]);
                    assert(colsd.len() == columnas_csv@.len());
                    assert(fila.deep_view().len() == fila@.len());
                }
                let clave = a_chars(select.columnas[k].as_str());
                let p = busca_col(columnas_csv, &clave);
                let idx = if p < columnas_csv.len() {
                    p
                } else {
                    0
                };
                let campo = if idx < fila.len() {
                    proof {
                        assert(fila.deep_view()[idx as int] =~= fila@[idx as int]@);
                    }
                    fila[idx].clone()
                } else {
                    String::new()
                };
                proyectada.push(campo);
                proof {
                    assert(proyectada.deep_view() =~~= p0.push(
                        proyectar_fila(lineas@[i as int].deep_view(), colsd, pedidas)[k as int],
                    ));
                }
                k += 1;
            }
            proof {
                assert(proyectada.deep_view() =~~= proyectar_fila(
                    lineas@[i as int].deep_view(),
                    colsd,
                    pedidas,
                ));
            }
            let ghost pd = proyectada.deep_view();
            res.push(proyectada);
            proof {
                assert(res.deep_view() =~~= res0.push(pd));
                assert(forall|m: int| 0 <= m < i as int ==> res.deep_view()[m] == res0[m]);
                assert(res.deep_view()[i as int] == pd);
            }
        }
        i += 1;
    }
    res
}

} // verus!

verus! {

/// A SELECT is valid against a header: `*` stands alone, every named
/// column exists, every WHERE clause resolves, every sort key exists.
pub open spec fn select_valido(s: Select, colsd: Seq<Seq<char>>) -> bool {
    let pedidas = s.columnas.deep_view();
    &&& !(alguna_asterisco(pedidas) && pedidas.len() > 1)
    &&& (!alguna_asterisco(pedidas) ==> forall|i: int|
        0 <= i < pedidas.len() ==> contiene_col(colsd, pedidas[i]))
    &&& (s.where_clauses is Some ==> forall|i: int|
        0 <= i < s.where_clauses->Some_0@.len() ==> clausula_resoluble(
            colsd,
            s.where_clauses->Some_0@[i],
        ))
    &&& (s.order_by is Some ==> forall|i: int|
        0 <= i < s.order_by->Some_0@.len() ==> contiene_col(
            colsd,
            s.order_by->Some_0@[i].columna@,
        ))
}

/// What a valid SELECT emits: the header (all columns for `*`, else the
/// requested ones), then every surviving row, sorted when ORDER BY is
/// present, projected to the requested columns.
pub open spec fn salida_select(s: Select, colsd: Seq<Seq<char>>, filas: Seq<Vec<String>>) -> Seq<
    Seq<Seq<char>>,
> {
    let pedidas = s.columnas.deep_view();
    let filtradas = filtradas_select(filas, colsd, s);
    let ordenadas = if s.order_by is Some {
        ordenar_filas(s.order_by->Some_0@, colsd, filtradas)
    } else {
        filtradas
    };
    let cabecera = if pide_todo(pedidas) {
        colsd
    } else {
        pedidas
    };
    seq![cabecera] + Seq::new(
        ordenadas.len(),
        |i: int| proyectar_fila(ordenadas[i].deep_view(), colsd, pedidas),
    )
}

/// Validates a SELECT against the header and executes it: the result is
/// the emitted header followed by the filtered, sorted, projected rows.
pub fn aplicar_select(select: &Select, columnas_csv: &Vec<String>, filas: Vec<Vec<String>>) -> (r:
    Result<Vec<Vec<String>>, ErrorPrograma>)
    requires
        filas_validas(filas@, columnas_csv@.len() as int),
    ensures
        match r {
            Ok(out) => select_valido(*select, columnas_csv.deep_view()) && out.deep_view()
                == salida_select(*select, columnas_csv.deep_view(), filas@),
            Err(e) => !select_valido(*select, columnas_csv.deep_view()) && e.tipo_spec()
                == ErrorTipo::Column,
        },
{
    let ghost colsd = columnas_csv.deep_view();
    let ghost pedidas = select.columnas.deep_view();
    let mut tiene_ast = false;
    let mut i: usize = 0;
    while i < select.columnas.len()
        invariant
            i <= select.columnas@.len(),
            pedidas == select.columnas.deep_view(),
            tiene_ast == exists|j: int| 0 <= j < i && pedidas[j] == seq!['*'],
        decreases select.columnas@.len() - i,
    {
        proof {
            assert(pedidas[i as int] =~= select.columnas@[i as int]@);
        }
        if es_asterisco_exec(select.columnas[i].as_str()) {
            tiene_ast = true;
        }
        i += 1;
    }
    proof {
        assert(tiene_ast == alguna_asterisco(pedidas));
    }
    if tiene_ast && select.columnas.len() > 1 {
        return Err(
            ErrorPrograma::new(
                ErrorTipo::Column,
                "No se puede seleccionar todas las columnas '*' y otras columnas al mismo tiempo.",
            ),
        );
    }
    if !tiene_ast {
        match verificar_existen_columnas_query(&select.columnas, columnas_csv) {
            Ok(_) => {
                proof {
                    assert(forall|k: int|
                        0 <= k < pedidas.len() ==> pedidas[k] =~= select.columnas@[k]@);
                }
            },
            Err(e) => {
                proof {
                    let w = choose|i: int|
                        0 <= i < select.columnas@.len() && !contiene_col(
                            colsd,
                            select.columnas@[i]@,
                        );
                    assert(pedidas[w] =~= select.columnas@[w]@);
                    assert(!contiene_col(colsd, pedidas[w]));
                    assert(!select_valido(*select, colsd));
                }
                return Err(e);
            },
        }
    }
    if select.where_clauses.is_some() {
        match verificar_existen_columnas_where_clause(&select.where_clauses, columnas_csv) {
            Ok(_) => {},
            Err(e) => {
                proof {
                    assert(!select_valido(*select, columnas_csv.deep_view()));
                }
                return Err(e);
            },
        }
    }
    let lineas_filtradas = filtrar_lineas_que_cumplen_con_where_clause(
        filas,
        select,
        columnas_csv,
    );
    let ordenadas = match ordenar_lineas_select(select, lineas_filtradas, columnas_csv) {
        Ok(o) => o,
        Err(e) => {
            return Err(e);
        },
    };
    let es_todo = select.columnas.len() > 0 && es_asterisco_exec(select.columnas[0].as_str());
    proof {
        if select.columnas@.len() > 0 {
            assert(pedidas[0] =~= select.columnas@[0]@);
        }
        assert(es_todo == pide_todo(pedidas));
    }
    let cabecera = if es_todo {
        clonar_cadenas(columnas_csv)
    } else {
        clonar_cadenas(&select.columnas)
    };
    let proyectadas = seleccionar_columnas_pedidas(&ordenadas, select, columnas_csv);
    let ghost proyv = proyectadas@;
    let ghost proyd = proyectadas.deep_view();
    let ghost cabv = cabecera@;
    let ghost cabd = cabecera.deep_view();
    let mut res: Vec<Vec<String>> = Vec::new();
    res.push(cabecera);
    let mut restantes = proyectadas;
    let total = restantes.len();
    let mut movidas: usize = 0;
    proof {
        assert(restantes@ =~= proyv.subrange(0, proyv.len() as int));
        assert(res@ =~= seq![res@[0]] + proyv.subrange(0, 0));
    }
    while restantes.len() > 0
        invariant
            proyv.len() == total,
            movidas <= total,
            restantes@ == proyv.subrange(movidas as int, total as int),
            res@.len() == movidas + 1,
            res@[0]@ == cabv,
            res@[0].deep_view() == cabd,
            res@ == seq![res@[0]] + proyv.subrange(0, movidas as int),
        decreases restantes@.len(),
    {
        let ghost res0 = res@;
        proof {
            assert(restantes@[0] == proyv[movidas as int]);
        }
        let fila = restantes.remove(0);
        res.push(fila);
        proof {
            assert(restantes@ =~= proyv.subrange(movidas as int + 1, total as int));
            assert(res@ =~= res0.push(proyv[movidas as int]));
            assert(res@ =~= seq![res@[0]] + proyv.subrange(0, movidas as int + 1));
        }
        movidas += 1;
    }
    proof {
        assert(proyv.subrange(0, total as int) =~= proyv);
        assert(res@ =~= seq![res@[0]] + proyv);
        assert forall|m: int| 0 <= m < res@.len() implies res.deep_view()[m] == salida_select(
            *select,
            colsd,
            filas@,
        )[m] by {
            if m == 0 {
                assert(res.deep_view()[0] == res@[0].deep_view());
            } else {
                assert(res@[m] == proyv[m - 1]);
                assert(res.deep_view()[m] == proyv[m - 1].deep_view());
                assert(proyd[m - 1] =~= proyv[m - 1].deep_view());
            }
        }
        assert(res.deep_view() =~~= salida_select(*select, colsd, filas@));
    }
    Ok(res)
}

} // verus!

verus! {

/// The `SET` assignments applied in order to one row: each comma-separated
/// piece must split on `=` into exactly a known column and a value; the
/// value, with one surrounding quote pair removed, overwrites the column's
/// field. A malformed piece is a `Syntax` error, an unknown column a
/// `Column` error.
pub open spec fn asignaciones_aplicadas(
    piezas: Seq<Seq<char>>,
    fila: Seq<Seq<char>>,
    colsd: Seq<Seq<char>>,
) -> Result<Seq<Seq<char>>, ErrorTipo>
    decreases piezas.len(),
{
    if piezas.len() == 0 {
        Ok(fila)
    } else {
        let partes = dividir(piezas[0], '=').map_values(|x: Seq<char>| recortar(x));
        if partes.len() == 2 {
            if contiene_col(colsd, partes[0]) {
                let p = pos_col(colsd, partes[0]);
                let val = quitar_par_comillas(partes[1]);
                let fila2 = if p < fila.len() {
                    fila.update(p, val)
                } else {
                    fila
                };
                asignaciones_aplicadas(piezas.drop_first(), fila2, colsd)
            } else {
                Err(ErrorTipo::Column)
            }
        } else {
            Err(ErrorTipo::Syntax)
        }
    }
}

/// One row after an `UPDATE`'s whole `SET` text is applied to it.
pub open spec fn fila_actualizada(
    set: Seq<char>,
    fila: Seq<Seq<char>>,
    colsd: Seq<Seq<char>>,
) -> Result<Seq<Seq<char>>, ErrorTipo> {
    asignaciones_aplicadas(dividir(set, ','), fila, colsd)
}

proof fn lemma_asignaciones_largo(piezas: Seq<Seq<char>>, fila: Seq<Seq<char>>, colsd: Seq<Seq<char>>)
    ensures
        asignaciones_aplicadas(piezas, fila, colsd) is Ok ==> asignaciones_aplicadas(
            piezas,
            fila,
            colsd,
        )->Ok_0.len() == fila.len(),
    decreases piezas.len(),
{
    if piezas.len() > 0 {
        let partes = dividir(piezas[0], '=').map_values(|x: Seq<char>| recortar(x));
        if partes.len() == 2 && contiene_col(colsd, partes[0]) {
            let p = pos_col(colsd, partes[0]);
            let val = quitar_par_comillas(partes[1]);
            let fila2 = if p < fila.len() {
                fila.update(p, val)
            } else {
                fila
            };
            lemma_pos_col(colsd, partes[0]);
            assert(fila2.len() == fila.len());
            lemma_asignaciones_largo(piezas.drop_first(), fila2, colsd);
            assert(asignaciones_aplicadas(piezas, fila, colsd) == asignaciones_aplicadas(
                piezas.drop_first(),
                fila2,
                colsd,
            ));
        }
    }
}

/// Parses the `SET` text and overwrites the listed columns of one row.
pub fn actualizar_valores_fila(update: &Update, valores: Vec<String>, columnas_csv: &Vec<String>)
    -> (r: Result<Vec<String>, ErrorPrograma>)
    requires
        valores@.len() == columnas_csv@.len(),
    ensures
        match r {
            Ok(nf) => fila_actualizada(
                update.set@,
                valores.deep_view(),
                columnas_csv.deep_view(),
            ) is Ok && nf.deep_view() == fila_actualizada(
                update.set@,
                valores.deep_view(),
                columnas_csv.deep_view(),
            )->Ok_0 && nf@.len() == valores@.len(),
            Err(e) => fila_actualizada(
                update.set@,
                valores.deep_view(),
                columnas_csv.deep_view(),
            ) is Err && e.tipo_spec() == fila_actualizada(
                update.set@,
                valores.deep_view(),
                columnas_csv.deep_view(),
            )->Err_0,
        },
{
    let ghost colsd = columnas_csv.deep_view();
    let ghost filad0 = valores.deep_view();
    let set_chars = a_chars(update.set.as_str());
    let piezas = dividir_v(&set_chars, ',');
    let ghost piezasd = piezas.deep_view();
    let mut fila = valores;
    let mut i: usize = 0;
    proof {
        assert(piezasd.subrange(0, piezasd.len() as int) =~~= piezasd);
    }
    while i < piezas.len()
        invariant
            i <= piezas@.len(),
            piezasd == piezas.deep_view(),
            colsd == columnas_csv.deep_view(),
            filad0 == valores.deep_view(),
            valores@.len() == columnas_csv@.len(),
            fila@.len() == columnas_csv@.len(),
            fila_actualizada(update.set@, filad0, colsd) == asignaciones_aplicadas(
                piezasd.subrange(i as int, piezasd.len() as int),
                fila.deep_view(),
                colsd,
            ),
        decreases piezas@.len() - i,
    {
        let ghost sub = piezasd.subrange(i as int, piezasd.len() as int);
        proof {
            assert(sub[0] == piezasd[i as int]);
            assert(sub.drop_first() =~~= piezasd.subrange(i as int + 1, piezasd.len() as int));
            assert(piezasd[i as int] =~= piezas@[i as int]@);
        }
        let partes = dividir_v(&piezas[i], '=');
        let ghost partesd = partes.deep_view();
        let mut partes_rec: Vec<Vec<char>> = Vec::new();
        let mut k: usize = 0;
        while k < partes.len()
            invariant
                k <= partes@.len(),
                partesd == partes.deep_view(),
                partes_rec.deep_view().len() == k,
                forall|m: int|
                    0 <= m < k ==> partes_rec.deep_view()[m] == recortar(partesd[m]),
            decreases partes@.len() - k,
        {
            let ghost p0 = partes_rec.deep_view();
            proof {
                assert(partesd[k as int] =~= partes@[k as int]@);
            }
            partes_rec.push(recortar_v(&partes[k]));
            proof {
                assert(partes_rec.deep_view() =~~= p0.push(recortar(partesd[k as int])));
            }
            k += 1;
        }
        proof {
            assert(partes_rec.deep_view() =~~= partesd.map_values(|x: Seq<char>| recortar(x)));
            assert(dividir(sub[0], '=') =~~= partesd);
        }
        if partes_rec.len() == 2 {
            let idx = busca_col(columnas_csv, &partes_rec[0]);
            proof {
                lemma_pos_col(colsd, partes_rec.deep_view()[0]);
                assert(partes_rec.deep_view()[0] =~= partes_rec@[0]@);
                assert(colsd.len() == columnas_csv@.len());
            }
            if idx < columnas_csv.len() {
                let val = quitar_par_comillas_v(&partes_rec[1]);
                proof {
                    assert(partes_rec.deep_view()[1] =~= partes_rec@[1]@);
                }
                let ghost fd0 = fila.deep_view();
                fila.set(idx, a_cadena(&val));
                proof {
                    assert(fila.deep_view() =~~= fd0.update(
                        idx as int,
                        quitar_par_comillas(partes_rec.deep_view()[1]),
                    ));
                }
            } else {
                proof {
                    assert(!contiene_col(colsd, recortar(partesd[0])));
                }
                let mut descripcion = String::from_str("La columna ");
                descripcion.append(a_cadena(&partes_rec[0]).as_str());
                descripcion.append(" no fue existe en el archivo csv.");
                return Err(ErrorPrograma::new(ErrorTipo::Column, descripcion.as_str()));
            }
        } else {
            return Err(
                ErrorPrograma::new(ErrorTipo::Syntax, "La sintaxis es invalida en la SET clause."),
            );
        }
        i += 1;
    }
    proof {
        assert(piezasd.subrange(piezasd.len() as int, piezasd.len() as int)
            =~~= Seq::<Seq<char>>::empty());
    }
    Ok(fila)
}

/// Every row after an `UPDATE`: rows the predicate selects are rewritten
/// by the `SET` text, the others pass unchanged; the first failing row
/// stops the statement.
pub open spec fn actualiza_filas_rec(
    u: Update,
    colsd: Seq<Seq<char>>,
    filas: Seq<Vec<String>>,
) -> Result<Seq<Seq<Seq<char>>>, ErrorTipo>
    decreases filas.len(),
{
    if filas.len() == 0 {
        Ok(Seq::empty())
    } else {
        let fd = filas[0].deep_view();
        let primera = if linea_cumple(fd, colsd, u.where_clauses, u.operacion_logica) {
            fila_actualizada(u.set@, fd, colsd)
        } else {
            Ok(fd)
        };
        match primera {
            Err(t) => Err(t),
            Ok(nf) => match actualiza_filas_rec(u, colsd, filas.drop_first()) {
                Err(t) => Err(t),
                Ok(resto) => Ok(seq![nf] + resto),
            },
        }
    }
}

/// Validates the `UPDATE`'s predicate against the header and rewrites
/// every selected row; the result holds exactly one row per input row.
pub fn aplicar_update(update: &Update, columnas_csv: &Vec<String>, filas: Vec<Vec<String>>) -> (r:
    Result<Vec<Vec<String>>, ErrorPrograma>)
    requires
        filas_validas(filas@, columnas_csv@.len() as int),
    ensures
        match r {
            Ok(out) => {
                &&& (update.where_clauses is Some ==> forall|i: int|
                    0 <= i < update.where_clauses->Some_0@.len() ==> clausula_resoluble(
                        columnas_csv.deep_view(),
                        update.where_clauses->Some_0@[i],
                    ))
                &&& actualiza_filas_rec(*update, columnas_csv.deep_view(), filas@) is Ok
                &&& out.deep_view() == actualiza_filas_rec(
                    *update,
                    columnas_csv.deep_view(),
                    filas@,
                )->Ok_0
                &&& out@.len() == filas@.len()
                &&& filas_validas(out@, columnas_csv@.len() as int)
            },
            Err(e) => {
                ||| (update.where_clauses is Some && (exists|i: int|
                    0 <= i < update.where_clauses->Some_0@.len() && !clausula_resoluble(
                        columnas_csv.deep_view(),
                        update.where_clauses->Some_0@[i],
                    )) && e.tipo_spec() == ErrorTipo::Column)
                ||| ((update.where_clauses is Some ==> forall|i: int|
                    0 <= i < update.where_clauses->Some_0@.len() ==> clausula_resoluble(
                        columnas_csv.deep_view(),
                        update.where_clauses->Some_0@[i],
                    )) && actualiza_filas_rec(*update, columnas_csv.deep_view(), filas@) is Err
                    && e.tipo_spec() == actualiza_filas_rec(
                    *update,
                    columnas_csv.deep_view(),
                    filas@,
                )->Err_0)
            },
        },
{
    let ghost colsd = columnas_csv.deep_view();
    if update.where_clauses.is_some() {
        match verificar_existen_columnas_where_clause(&update.where_clauses, columnas_csv) {
            Ok(_) => {},
            Err(e) => {
                return Err(e);
            },
        }
    }
    let ghost todas = filas@;
    let mut restantes = filas;
    let mut res: Vec<Vec<String>> = Vec::new();
    let total = restantes.len();
    let mut procesadas: usize = 0;
    proof {
        assert(restantes@ =~= todas.subrange(0, todas.len() as int));
    }
    while restantes.len() > 0
        invariant
            colsd == columnas_csv.deep_view(),
            todas == filas@,
            todas.len() == total,
            procesadas <= total,
            restantes@ == todas.subrange(procesadas as int, todas.len() as int),
            filas_validas(todas, columnas_csv@.len() as int),
            res@.len() == procesadas,
            filas_validas(res@, columnas_csv@.len() as int),
            update.where_clauses is Some ==> forall|i: int|
                0 <= i < update.where_clauses->Some_0@.len() ==> clausula_resoluble(
                    colsd,
                    update.where_clauses->Some_0@[i],
                ),
            match actualiza_filas_rec(*update, colsd, todas) {
                Ok(final_total) => actualiza_filas_rec(*update, colsd, restantes@) is Ok
                    && final_total == res.deep_view() + actualiza_filas_rec(
                    *update,
                    colsd,
                    restantes@,
                )->Ok_0,
                Err(t) => actualiza_filas_rec(*update, colsd, restantes@) is Err
                    && actualiza_filas_rec(*update, colsd, restantes@)->Err_0 == t,
            },
        decreases restantes@.len(),
    {
        let ghost sub = restantes@;
        let ghost res0 = res.deep_view();
        proof {
            assert(sub[0] == todas[procesadas as int]);
            assert(todas[procesadas as int]@.len() == columnas_csv@.len());
            assert(sub.drop_first() =~= todas.subrange(procesadas as int + 1, todas.len() as int));
        }
        let fila = restantes.remove(0);
        let cumple = verificar_si_linea_cumple_condicion(
            &fila,
            &update.where_clauses,
            &update.operacion_logica,
            columnas_csv,
        );
        if cumple {
            match actualizar_valores_fila(update, fila, columnas_csv) {
                Ok(nueva) => {
                    res.push(nueva);
                    proof {
                        assert(res.deep_view() =~~= res0.push(
                            fila_actualizada(update.set@, sub[0].deep_view(), colsd)->Ok_0,
                        ));
                        assert(res0 + (seq![
                            fila_actualizada(update.set@, sub[0].deep_view(), colsd)->Ok_0,
                        ] + actualiza_filas_rec(*update, colsd, sub.drop_first())->Ok_0)
                            =~~= res.deep_view() + actualiza_filas_rec(
                            *update,
                            colsd,
                            sub.drop_first(),
                        )->Ok_0);
                    }
                },
                Err(e) => {
                    proof {
                        assert(fila_actualizada(update.set@, sub[0].deep_view(), colsd) is Err);
                        assert(actualiza_filas_rec(*update, colsd, sub) is Err);
                        assert(actualiza_filas_rec(*update, colsd, sub)->Err_0 == e.tipo_spec());
                        assert(actualiza_filas_rec(*update, colsd, todas) is Err);
                        assert(actualiza_filas_rec(*update, colsd, todas)->Err_0 == e.tipo_spec());
                    }
                    return Err(e);
                },
            }
        } else {
            let ghost fd = fila.deep_view();
            res.push(fila);
            proof {
                assert(res.deep_view() =~~= res0.push(fd));
                assert(res0 + (seq![fd] + actualiza_filas_rec(
                    *update,
                    colsd,
                    sub.drop_first(),
                )->Ok_0) =~~= res.deep_view() + actualiza_filas_rec(
                    *update,
                    colsd,
                    sub.drop_first(),
                )->Ok_0);
            }
        }
        procesadas += 1;
    }
    proof {
        assert(actualiza_filas_rec(*update, colsd, restantes@) == Ok::<
            Seq<Seq<Seq<char>>>,
            ErrorTipo,
        >(Seq::empty()));
        assert(res.deep_view() + Seq::<Seq<Seq<char>>>::empty() =~~= res.deep_view());
    }
    Ok(res)
}

} // verus!

verus! {

/// The rows a `DELETE` keeps: those its predicate does not select.
pub open spec fn filas_conservadas(
    d: Delete,
    colsd: Seq<Seq<char>>,
    filas: Seq<Vec<String>>,
) -> Seq<Vec<String>>
    decreases filas.len(),
{
    if filas.len() == 0 {
        filas
    } else {
        let resto = filas_conservadas(d, colsd, filas.drop_first());
        if linea_cumple(filas[0].deep_view(), colsd, d.where_clauses, d.operacion_logica) {
            resto
        } else {
            seq![filas[0]] + resto
        }
    }
}

/// How many rows a `DELETE`'s predicate selects.
pub open spec fn cuenta_cumplen(d: Delete, colsd: Seq<Seq<char>>, filas: Seq<Vec<String>>) -> int
    decreases filas.len(),
{
    if filas.len() == 0 {
        0
    } else {
        (if linea_cumple(filas[0].deep_view(), colsd, d.where_clauses, d.operacion_logica) {
            1int
        } else {
            0int
        }) + cuenta_cumplen(d, colsd, filas.drop_first())
    }
}

/// The kept rows are exactly the input rows less the selected ones.
pub proof fn lemma_conservadas_cuenta(d: Delete, colsd: Seq<Seq<char>>, filas: Seq<Vec<String>>)
    ensures
        filas_conservadas(d, colsd, filas).len() + cuenta_cumplen(d, colsd, filas) == filas.len(),
    decreases filas.len(),
{
    if filas.len() > 0 {
        lemma_conservadas_cuenta(d, colsd, filas.drop_first());
    }
}

/// A `DELETE` must carry a predicate; it validates it against the header
/// and keeps exactly the rows the predicate does not select.
pub fn aplicar_delete(delete: &Delete, columnas_csv: &Vec<String>, filas: Vec<Vec<String>>) -> (r:
    Result<Vec<Vec<String>>, ErrorPrograma>)
    requires
        filas_validas(filas@, columnas_csv@.len() as int),
    ensures
        match r {
            Ok(out) => {
                &&& delete.where_clauses is Some
                &&& forall|i: int|
                    0 <= i < delete.where_clauses->Some_0@.len() ==> clausula_resoluble(
                        columnas_csv.deep_view(),
                        delete.where_clauses->Some_0@[i],
                    )
                &&& out@ == filas_conservadas(*delete, columnas_csv.deep_view(), filas@)
                &&& out@.len() == filas@.len() - cuenta_cumplen(
                    *delete,
                    columnas_csv.deep_view(),
                    filas@,
                )
                &&& filas_validas(out@, columnas_csv@.len() as int)
            },
            Err(e) => {
                ||| (delete.where_clauses is None && e.tipo_spec() == ErrorTipo::Syntax)
                ||| (delete.where_clauses is Some && (exists|i: int|
                    0 <= i < delete.where_clauses->Some_0@.len() && !clausula_resoluble(
                        columnas_csv.deep_view(),
                        delete.where_clauses->Some_0@[i],
                    )) && e.tipo_spec() == ErrorTipo::Column)
            },
        },
{
    let ghost colsd = columnas_csv.deep_view();
    if delete.where_clauses.is_some() {
        match verificar_existen_columnas_where_clause(&delete.where_clauses, columnas_csv) {
            Ok(_) => {},
            Err(e) => {
                return Err(e);
            },
        }
    } else {
        return Err(
            ErrorPrograma::new(ErrorTipo::Syntax, "No hay una WHERE clause en la consulta DELETE."),
        );
    }
    let ghost todas = filas@;
    let mut restantes = filas;
    let mut res: Vec<Vec<String>> = Vec::new();
    let total = restantes.len();
    let mut procesadas: usize = 0;
    proof {
        assert(restantes@ =~= todas.subrange(0, todas.len() as int));
        assert(res@ + filas_conservadas(*delete, colsd, todas) =~= filas_conservadas(
            *delete,
            colsd,
            todas,
        ));
    }
    while restantes.len() > 0
        invariant
            colsd == columnas_csv.deep_view(),
            todas == filas@,
            todas.len() == total,
            procesadas <= total,
            restantes@ == todas.subrange(procesadas as int, todas.len() as int),
            filas_validas(todas, columnas_csv@.len() as int),
            filas_conservadas(*delete, colsd, todas) == res@ + filas_conservadas(
                *delete,
                colsd,
                restantes@,
            ),
            filas_validas(res@, columnas_csv@.len() as int),
        decreases restantes@.len(),
    {
        let ghost sub = restantes@;
        let ghost res0 = res@;
        proof {
            assert(sub[0] == todas[procesadas as int]);
            assert(todas[procesadas as int]@.len() == columnas_csv@.len());
            assert(sub.drop_first() =~= todas.subrange(procesadas as int + 1, todas.len() as int));
        }
        let fila = restantes.remove(0);
        let cumple = verificar_si_linea_cumple_condicion(
            &fila,
            &delete.where_clauses,
            &delete.operacion_logica,
            columnas_csv,
        );
        if !cumple {
            res.push(fila);
            proof {
                assert(res@ =~= res0.push(sub[0]));
                assert(res0 + (seq![sub[0]] + filas_conservadas(*delete, colsd, sub.drop_first()))
                    =~= res@ + filas_conservadas(*delete, colsd, sub.drop_first()));
            }
        }
        procesadas += 1;
    }
    proof {
        assert(filas_conservadas(*delete, colsd, restantes@) =~= Seq::<Vec<String>>::empty());
        assert(res@ + Seq::<Vec<String>>::empty() =~= res@);
        lemma_conservadas_cuenta(*delete, colsd, todas);
    }
    Ok(res)
}

/// The columns an `INSERT` names, split on commas and trimmed.
pub open spec fn columnas_insert_de(nombre: Seq<char>) -> Seq<Seq<char>> {
    dividir(nombre, ',').map_values(|x: Seq<char>| recortar(x))
}

/// One appended row: each header column either takes the value at its
/// position in the insert column list, with one surrounding quote pair
/// removed, or stays empty when the column is not listed or the group has
/// no value for it.
pub open spec fn fila_insert(
    grupo: Seq<char>,
    colsd: Seq<Seq<char>>,
    cols_ins: Seq<Seq<char>>,
) -> Seq<Seq<char>> {
    let vals = campos_linea(grupo);
    Seq::new(
        colsd.len(),
        |i: int|
            {
                let p = pos_col(cols_ins, colsd[i]);
                if p < cols_ins.len() {
                    if p < vals.len() {
                        quitar_par_comillas(vals[p])
                    } else {
                        Seq::empty()
                    }
                } else {
                    Seq::empty()
                }
            },
    )
}

/// Builds the aligned row for one value group.
pub fn construir_fila_insert(
    grupo: &str,
    columnas_csv: &Vec<String>,
    columnas_insert: &Vec<String>,
) -> (r: Vec<String>)
    ensures
        r.deep_view() == fila_insert(grupo@, columnas_csv.deep_view(), columnas_insert.deep_view()),
        r@.len() == columnas_csv@.len(),
{
    let ghost colsd = columnas_csv.deep_view();
    let ghost insd = columnas_insert.deep_view();
    let valores = dividir_linea(grupo);
    let ghost valsd = valores.deep_view();
    let mut r: Vec<String> = Vec::new();
    let mut i: usize = 0;
    while i < columnas_csv.len()
        invariant
            i <= columnas_csv@.len(),
            colsd == columnas_csv.deep_view(),
            insd == columnas_insert.deep_view(),
            valsd == valores.deep_view(),
            valsd == campos_linea(grupo@),
            r.deep_view().len() == i,
            forall|m: int|
                0 <= m < i ==> r.deep_view()[m] == fila_insert(grupo@, colsd, insd)[m],
        decreases columnas_csv@.len() - i,
    {
        let ghost r0 = r.deep_view();
        proof {
            assert(colsd[i as int] =~= columnas_csv@[i as int]@);
            lemma_pos_col(insd, colsd[i as int]);
            assert(insd.len() == columnas_insert@.len());
            assert(valsd.len() == valores@.len());
        }
        let clave = a_chars(columnas_csv[i].as_str());
        let p = busca_col(columnas_insert, &clave);
        let campo: String = if p < columnas_insert.len() {
            if p < valores.len() {
                proof {
                    assert(valsd[p as int] =~= valores@[p as int]@);
                }
                let vchars = a_chars(valores[p].as_str());
                let sin = quitar_par_comillas_v(&vchars);
                a_cadena(&sin)
            } else {
                String::new()
            }
        } else {
            String::new()
        };
        r.push(campo);
        proof {
            assert(r.deep_view() =~~= r0.push(fila_insert(grupo@, colsd, insd)[i as int]));
        }
        i += 1;
    }
    proof {
        assert(fila_insert(grupo@, colsd, insd).len() == colsd.len());
    }
    r
}

/// Validates the insert columns against the header and builds one aligned
/// row per value group, ready to append to the table.
pub fn aplicar_insert(
    columnas_csv: &Vec<String>,
    nombre_columnas_insertar: &str,
    valores_a_insertar: &Vec<String>,
) -> (r: Result<Vec<Vec<String>>, ErrorPrograma>)
    ensures
        match r {
            Ok(out) => {
                &&& forall|i: int|
                    0 <= i < columnas_insert_de(nombre_columnas_insertar@).len()
                        ==> contiene_col(
                        columnas_csv.deep_view(),
                        columnas_insert_de(nombre_columnas_insertar@)[i],
                    )
                &&& out@.len() == valores_a_insertar@.len()
                &&& forall|i: int|
                    0 <= i < out@.len() ==> out@[i].deep_view() == fila_insert(
                        valores_a_insertar@[i]@,
                        columnas_csv.deep_view(),
                        columnas_insert_de(nombre_columnas_insertar@),
                    )
                &&& filas_validas(out@, columnas_csv@.len() as int)
            },
            Err(e) => (exists|i: int|
                0 <= i < columnas_insert_de(nombre_columnas_insertar@).len() && !contiene_col(
                    columnas_csv.deep_view(),
                    columnas_insert_de(nombre_columnas_insertar@)[i],
                )) && e.tipo_spec() == ErrorTipo::Column,
        },
{
    let ghost colsd = columnas_csv.deep_view();
    let ghost insd = columnas_insert_de(nombre_columnas_insertar@);
    let columnas_insert = dividir_linea(nombre_columnas_insertar);
    proof {
        assert(columnas_insert.deep_view() == insd);
    }
    match verificar_existen_columnas_query(&columnas_insert, columnas_csv) {
        Ok(_) => {
            proof {
                assert(forall|k: int|
                    0 <= k < insd.len() ==> insd[k] =~= columnas_insert@[k]@);
            }
        },
        Err(e) => {
            proof {
                let w = choose|i: int|
                    0 <= i < columnas_insert@.len() && !contiene_col(
                        colsd,
                        columnas_insert@[i]@,
                    );
                assert(insd[w] =~= columnas_insert@[w]@);
                assert(!contiene_col(colsd, insd[w]));
            }
            return Err(e);
        },
    }
    let mut res: Vec<Vec<String>> = Vec::new();
    let mut i: usize = 0;
    while i < valores_a_insertar.len()
        invariant
            i <= valores_a_insertar@.len(),
            colsd == columnas_csv.deep_view(),
            insd == columnas_insert.deep_view(),
            insd == columnas_insert_de(nombre_columnas_insertar@),
            res@.len() == i,
            forall|m: int|
                0 <= m < i ==> res@[m].deep_view() == fila_insert(
                    valores_a_insertar@[m]@,
                    colsd,
                    insd,
                ),
            filas_validas(res@, columnas_csv@.len() as int),
        decreases valores_a_insertar@.len() - i,
    {
        let fila = construir_fila_insert(
            valores_a_insertar[i].as_str(),
            columnas_csv,
            &columnas_insert,
        );
        res.push(fila);
        i += 1;
    }
    Ok(res)
}

} // verus!

verus! {

/// Whether some `SET` piece writes the column at index `i`.
pub open spec fn escribe_columna(piezas: Seq<Seq<char>>, colsd: Seq<Seq<char>>, i: int) -> bool
    decreases piezas.len(),
{
    if piezas.len() == 0 {
        false
    } else {
        let partes = dividir(piezas[0], '=').map_values(|x: Seq<char>| recortar(x));
        (partes.len() == 2 && contiene_col(colsd, partes[0]) && pos_col(colsd, partes[0]) == i)
            || escribe_columna(piezas.drop_first(), colsd, i)
    }
}

/// The value the field at index `i` holds after the pieces run, starting
/// from `cur`.
pub open spec fn valor_final(
    piezas: Seq<Seq<char>>,
    colsd: Seq<Seq<char>>,
    i: int,
    cur: Seq<char>,
) -> Seq<char>
    decreases piezas.len(),
{
    if piezas.len() == 0 {
        cur
    } else {
        let partes = dividir(piezas[0], '=').map_values(|x: Seq<char>| recortar(x));
        if partes.len() == 2 && contiene_col(colsd, partes[0]) && pos_col(colsd, partes[0]) == i {
            valor_final(piezas.drop_first(), colsd, i, quitar_par_comillas(partes[1]))
        } else {
            valor_final(piezas.drop_first(), colsd, i, cur)
        }
    }
}

proof fn lemma_vf_no_escrita(piezas: Seq<Seq<char>>, colsd: Seq<Seq<char>>, i: int, cur: Seq<char>)
    requires
        !escribe_columna(piezas, colsd, i),
    ensures
        valor_final(piezas, colsd, i, cur) == cur,
    decreases piezas.len(),
{
    if piezas.len() > 0 {
        lemma_vf_no_escrita(piezas.drop_first(), colsd, i, cur);
    }
}

proof fn lemma_vf_indep(
    piezas: Seq<Seq<char>>,
    colsd: Seq<Seq<char>>,
    i: int,
    z1: Seq<char>,
    z2: Seq<char>,
)
    requires
        escribe_columna(piezas, colsd, i),
    ensures
        valor_final(piezas, colsd, i, z1) == valor_final(piezas, colsd, i, z2),
    decreases piezas.len(),
{
    if piezas.len() > 0 {
        let partes = dividir(piezas[0], '=').map_values(|x: Seq<char>| recortar(x));
        if partes.len() == 2 && contiene_col(colsd, partes[0]) && pos_col(colsd, partes[0]) == i {
        } else {
            lemma_vf_indep(piezas.drop_first(), colsd, i, z1, z2);
        }
    }
}

proof fn lemma_asig_ok_indep(
    piezas: Seq<Seq<char>>,
    colsd: Seq<Seq<char>>,
    x: Seq<Seq<char>>,
    y: Seq<Seq<char>>,
)
    requires
        asignaciones_aplicadas(piezas, x, colsd) is Ok,
    ensures
        asignaciones_aplicadas(piezas, y, colsd) is Ok,
    decreases piezas.len(),
{
    if piezas.len() > 0 {
        let partes = dividir(piezas[0], '=').map_values(|x2: Seq<char>| recortar(x2));
        let p = pos_col(colsd, partes[0]);
        let val = quitar_par_comillas(partes[1]);
        let x2 = if p < x.len() {
            x.update(p, val)
        } else {
            x
        };
        let y2 = if p < y.len() {
            y.update(p, val)
        } else {
            y
        };
        lemma_asig_ok_indep(piezas.drop_first(), colsd, x2, y2);
    }
}

proof fn lemma_asig_caracterizacion(piezas: Seq<Seq<char>>, colsd: Seq<Seq<char>>, x: Seq<Seq<char>>)
    requires
        asignaciones_aplicadas(piezas, x, colsd) is Ok,
    ensures
        asignaciones_aplicadas(piezas, x, colsd)->Ok_0.len() == x.len(),
        forall|i: int|
            0 <= i < x.len() ==> asignaciones_aplicadas(piezas, x, colsd)->Ok_0[i] == valor_final(
                piezas,
                colsd,
                i,
                x[i],
            ),
    decreases piezas.len(),
{
    if piezas.len() > 0 {
        let partes = dividir(piezas[0], '=').map_values(|x2: Seq<char>| recortar(x2));
        let p = pos_col(colsd, partes[0]);
        lemma_pos_col(colsd, partes[0]);
        let val = quitar_par_comillas(partes[1]);
        let x2 = if p < x.len() {
            x.update(p, val)
        } else {
            x
        };
        lemma_asig_caracterizacion(piezas.drop_first(), colsd, x2);
        assert forall|i: int| 0 <= i < x.len() implies asignaciones_aplicadas(
            piezas,
            x,
            colsd,
        )->Ok_0[i] == valor_final(piezas, colsd, i, x[i]) by {
            if p < x.len() && i == p {
                assert(x2[i] == val);
            } else {
                assert(x2[i] == x[i]);
            }
        }
    }
}

proof fn lemma_vf_doble(piezas: Seq<Seq<char>>, colsd: Seq<Seq<char>>, i: int, cur: Seq<char>)
    ensures
        valor_final(piezas, colsd, i, valor_final(piezas, colsd, i, cur)) == valor_final(
            piezas,
            colsd,
            i,
            cur,
        ),
{
    if escribe_columna(piezas, colsd, i) {
        lemma_vf_indep(piezas, colsd, i, valor_final(piezas, colsd, i, cur), cur);
    } else {
        lemma_vf_no_escrita(piezas, colsd, i, cur);
        lemma_vf_no_escrita(piezas, colsd, i, valor_final(piezas, colsd, i, cur));
    }
}

/// Applying the same `SET` text a second time changes nothing: every piece
/// writes a fixed value, so a second pass writes what is already there.
pub proof fn lemma_set_idempotente(set: Seq<char>, fila: Seq<Seq<char>>, colsd: Seq<Seq<char>>)
    requires
        fila_actualizada(set, fila, colsd) is Ok,
    ensures
        fila_actualizada(set, fila_actualizada(set, fila, colsd)->Ok_0, colsd) == fila_actualizada(
            set,
            fila,
            colsd,
        ),
{
    let piezas = dividir(set, ',');
    let r = asignaciones_aplicadas(piezas, fila, colsd)->Ok_0;
    lemma_asig_ok_indep(piezas, colsd, fila, r);
    lemma_asig_caracterizacion(piezas, colsd, fila);
    lemma_asig_caracterizacion(piezas, colsd, r);
    assert forall|i: int| 0 <= i < r.len() implies asignaciones_aplicadas(
        piezas,
        r,
        colsd,
    )->Ok_0[i] == r[i] by {
        lemma_vf_doble(piezas, colsd, i, fila[i]);
    }
    assert(asignaciones_aplicadas(piezas, r, colsd)->Ok_0 =~= r);
}

/// An `UPDATE` that succeeds leaves one row per input row.
pub proof fn lemma_actualiza_largo(u: Update, colsd: Seq<Seq<char>>, filas: Seq<Vec<String>>)
    ensures
        actualiza_filas_rec(u, colsd, filas) is Ok ==> actualiza_filas_rec(
            u,
            colsd,
            filas,
        )->Ok_0.len() == filas.len(),
    decreases filas.len(),
{
    if filas.len() > 0 {
        lemma_actualiza_largo(u, colsd, filas.drop_first());
    }
}

/// Running the same `UPDATE` twice in a row yields the same table content
/// as running it once: rows it selected and rewrote are rewritten to the
/// same values, and rows it left alone are left alone again.
pub proof fn lemma_update_idempotente(
    u: Update,
    colsd: Seq<Seq<char>>,
    filas: Seq<Vec<String>>,
    filas2: Seq<Vec<String>>,
)
    requires
        actualiza_filas_rec(u, colsd, filas) is Ok,
        filas2.len() == actualiza_filas_rec(u, colsd, filas)->Ok_0.len(),
        forall|i: int|
            0 <= i < filas2.len() ==> filas2[i].deep_view() == actualiza_filas_rec(
                u,
                colsd,
                filas,
            )->Ok_0[i],
    ensures
        actualiza_filas_rec(u, colsd, filas2) is Ok,
        actualiza_filas_rec(u, colsd, filas2)->Ok_0 == actualiza_filas_rec(u, colsd, filas)->Ok_0,
    decreases filas.len(),
{
    lemma_actualiza_largo(u, colsd, filas);
    if filas.len() == 0 {
        assert(filas2.len() == 0);
        assert(actualiza_filas_rec(u, colsd, filas2) == Ok::<Seq<Seq<Seq<char>>>, ErrorTipo>(
            Seq::empty(),
        ));
    } else {
        let fd = filas[0].deep_view();
        let out = actualiza_filas_rec(u, colsd, filas)->Ok_0;
        let resto_out = actualiza_filas_rec(u, colsd, filas.drop_first())->Ok_0;
        lemma_actualiza_largo(u, colsd, filas.drop_first());
        assert(out =~~= seq![out[0]] + resto_out);
        let g = filas2[0].deep_view();
        assert(g == out[0]);
        if linea_cumple(fd, colsd, u.where_clauses, u.operacion_logica) {
            assert(out[0] == fila_actualizada(u.set@, fd, colsd)->Ok_0);
            if linea_cumple(g, colsd, u.where_clauses, u.operacion_logica) {
                lemma_set_idempotente(u.set@, fd, colsd);
            }
        } else {
            assert(out[0] == fd);
        }
        let t2 = filas2.drop_first();
        assert(t2.len() == resto_out.len());
        assert forall|i: int| 0 <= i < t2.len() implies t2[i].deep_view() == resto_out[i] by {
            assert(t2[i] == filas2[i + 1]);
            assert(out[i + 1] == resto_out[i]);
        }
        lemma_update_idempotente(u, colsd, filas.drop_first(), t2);
        assert(actualiza_filas_rec(u, colsd, filas2)->Ok_0 =~~= out);
    }
}

} // verus!
