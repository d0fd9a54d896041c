//! ORDER BY sorting: a multi-key row comparison and a stable insertion
//! sort, pinned to a spec-level reference sort.

use crate::cadenas::lex_lt;
use crate::cadenas::lex_lt_v;
use crate::cadenas::igual_chars;
use crate::cadenas::a_chars;
use crate::condiciones::contiene_col;
use crate::condiciones::pos_col;
use crate::condiciones::busca_col;
use crate::condiciones::lemma_pos_col;
use crate::errors::ErrorPrograma;
use crate::errors::ErrorTipo;
use crate::query_identifier::Order;
use crate::query_identifier::OrderByClause;
use crate::query_identifier::Select;
use vstd::multiset::Multiset;
use vstd::prelude::*;

verus! {

/// Three-way comparison of two rows under the sort keys, evaluated
/// left-to-right: the first key that tells the rows apart decides.
pub open spec fn compara_filas(
    ord: Seq<OrderByClause>,
    cols: Seq<Seq<char>>,
    a: Seq<Seq<char>>,
    b: Seq<Seq<char>>,
) -> int
    decreases ord.len(),
{
    if ord.len() == 0 {
        0
    } else {
        let p = pos_col(cols, ord[0].columna@);
        let i = if p < cols.len() {
            p
        } else {
            0
        };
        let x = if i < a.len() {
            a[i]
        } else {
            Seq::<char>::empty()
        };
        let y = if i < b.len() {
            b[i]
        } else {
            Seq::<char>::empty()
        };
        let c: int = if lex_lt(x, y) {
            -1
        } else if x == y {
            0
        } else {
            1
        };
        let c2: int = match ord[0].orden {
            Order::Asc => c,
            Order::Desc => -c,
        };
        if c2 != 0 {
            c2
        } else {
            compara_filas(ord.drop_first(), cols, a, b)
        }
    }
}

/// Equal under every sort key.
pub open spec fn claves_iguales(
    ord: Seq<OrderByClause>,
    cols: Seq<Seq<char>>,
    a: Seq<Seq<char>>,
    b: Seq<Seq<char>>,
) -> bool {
    compara_filas(ord, cols, a, b) == 0
}

/// Every row has exactly one field per header column.
pub open spec fn filas_validas(s: Seq<Vec<String>>, ncols: int) -> bool {
    forall|i: int| 0 <= i < s.len() ==> s[i]@.len() == ncols
}

/// Three-way comparison of two rows under the sort keys.
pub fn comparar_filas_exec(
    ord: &Vec<OrderByClause>,
    cols: &Vec<String>,
    a: &Vec<String>,
    b: &Vec<String>,
) -> (r: i32)
    requires
        a@.len() == cols@.len(),
        b@.len() == cols@.len(),
    ensures
        r as int == compara_filas(ord@, cols.deep_view(), a.deep_view(), b.deep_view()),
{
    let ghost colsd = cols.deep_view();
    let ghost ad = a.deep_view();
    let ghost bd = b.deep_view();
    let mut k: usize = 0;
    proof {
        assert(ord@.subrange(0, ord@.len() as int) =~= ord@);
    }
    while k < ord.len()
        invariant
            k <= ord@.len(),
            colsd == cols.deep_view(),
            ad == a.deep_view(),
            bd == b.deep_view(),
            a@.len() == cols@.len(),
            b@.len() == cols@.len(),
            compara_filas(ord@, colsd, ad, bd) == compara_filas(
                ord@.subrange(k as int, ord@.len() as int),
                colsd,
                ad,
                bd,
            ),
        decreases ord@.len() - k,
    {
        let ghost sub = ord@.subrange(k as int, ord@.len() as int);
        proof {
            assert(sub[0] == ord@[k as int]);
            assert(sub.drop_first() =~= ord@.subrange(k as int + 1, ord@.len() as int));
            lemma_pos_col(colsd, ord@[k as int].columna@);
        }
        let clave = a_chars(ord[k].columna.as_str());
        let p = busca_col(cols, &clave);
        let i = if p < cols.len() {
            p
        } else {
            0
        };
        let c: i32 = if cols.len() == 0 {
            proof {
                assert(ad.len() == 0 && bd.len() == 0);
            }
            0
        } else {
            proof {
                assert(i < cols@.len());
                assert(ad[i as int] =~= a@[i as int]@);
                assert(bd[i as int] =~= b@[i as int]@);
            }
            let x = a_chars(a[i].as_str());
            let y = a_chars(b[i].as_str());
            if lex_lt_v(&x, &y) {
                -1
            } else if igual_chars(&x, &y) {
                0
            } else {
                1
            }
        };
        let c2: i32 = match ord[k].orden {
            Order::Asc => c,
            Order::Desc => -c,
        };
        if c2 != 0 {
            return c2;
        }
        k += 1;
    }
    proof {
        assert(ord@.subrange(ord@.len() as int, ord@.len() as int)
            =~= Seq::<OrderByClause>::empty());
    }
    0
}

/// Where a row lands among already-sorted rows: after every row not
/// strictly greater, before the first strictly greater one. Equal rows
/// stay in front of the inserted one, which keeps the sort stable.
pub open spec fn insertar_fila(
    ord: Seq<OrderByClause>,
    cols: Seq<Seq<char>>,
    x: Vec<String>,
    s: Seq<Vec<String>>,
) -> Seq<Vec<String>>
    decreases s.len(),
{
    if s.len() == 0 {
        seq![x]
    } else if compara_filas(ord, cols, x.deep_view(), s[0].deep_view()) < 0 {
        seq![x] + s
    } else {
        seq![s[0]] + insertar_fila(ord, cols, x, s.drop_first())
    }
}

/// The reference sort: rows inserted one after another, in their original
/// order, each behind the rows it does not strictly precede.
pub open spec fn ordenar_filas(
    ord: Seq<OrderByClause>,
    cols: Seq<Seq<char>>,
    s: Seq<Vec<String>>,
) -> Seq<Vec<String>>
    decreases s.len(),
{
    if s.len() == 0 {
        s
    } else {
        insertar_fila(ord, cols, s.last(), ordenar_filas(ord, cols, s.drop_last()))
    }
}

proof fn lemma_insertar_indice(
    ord: Seq<OrderByClause>,
    cols: Seq<Seq<char>>,
    x: Vec<String>,
    s: Seq<Vec<String>>,
    j: int,
)
    requires
        0 <= j <= s.len(),
        forall|k: int|
            0 <= k < j ==> compara_filas(ord, cols, x.deep_view(), s[k].deep_view()) >= 0,
        j < s.len() ==> compara_filas(ord, cols, x.deep_view(), s[j].deep_view()) < 0,
    ensures
        insertar_fila(ord, cols, x, s) =~= s.subrange(0, j) + seq![x] + s.subrange(
            j,
            s.len() as int,
        ),
    decreases j,
{
    if s.len() == 0 {
        assert(insertar_fila(ord, cols, x, s) =~= seq![x]);
    } else if j == 0 {
        assert(compara_filas(ord, cols, x.deep_view(), s[0].deep_view()) < 0);
    } else {
        assert(compara_filas(ord, cols, x.deep_view(), s[0].deep_view()) >= 0);
        let t = s.drop_first();
        assert(forall|k: int|
            0 <= k < j - 1 ==> compara_filas(ord, cols, x.deep_view(), #[trigger] t[k].deep_view())
                >= 0);
        lemma_insertar_indice(ord, cols, x, t, j - 1);
        assert(t.subrange(0, j - 1) =~= s.subrange(1, j));
        assert(t.subrange(j - 1, t.len() as int) =~= s.subrange(j, s.len() as int));
        assert(seq![s[0]] + (t.subrange(0, j - 1) + seq![x] + t.subrange(j - 1, t.len() as int))
            =~= s.subrange(0, j) + seq![x] + s.subrange(j, s.len() as int));
    }
}

/// The stable insertion point of a row: past every row it does not
/// strictly precede.
fn posicion_insercion(
    ord: &Vec<OrderByClause>,
    cols: &Vec<String>,
    fila: &Vec<String>,
    res: &Vec<Vec<String>>,
) -> (j: usize)
    requires
        fila@.len() == cols@.len(),
        filas_validas(res@, cols@.len() as int),
    ensures
        j <= res@.len(),
        forall|k: int|
            0 <= k < j ==> compara_filas(
                ord@,
                cols.deep_view(),
                fila.deep_view(),
                #[trigger] res@[k].deep_view(),
            ) >= 0,
        j < res@.len() ==> compara_filas(
            ord@,
            cols.deep_view(),
            fila.deep_view(),
            res@[j as int].deep_view(),
        ) < 0,
{
    let mut j: usize = 0;
    while j < res.len()
        invariant
            j <= res@.len(),
            fila@.len() == cols@.len(),
            filas_validas(res@, cols@.len() as int),
            forall|k: int|
                0 <= k < j ==> compara_filas(
                    ord@,
                    cols.deep_view(),
                    fila.deep_view(),
                    #[trigger] res@[k].deep_view(),
                ) >= 0,
        decreases res@.len() - j,
    {
        let c = comparar_filas_exec(ord, cols, fila, &res[j]);
        if c < 0 {
            return j;
        }
        j += 1;
    }
    j
}

/// Inserts a row into already-sorted rows at its stable position.
fn insertar_ordenado(
    ord: &Vec<OrderByClause>,
    cols: &Vec<String>,
    fila: Vec<String>,
    res: &mut Vec<Vec<String>>,
)
    requires
        fila@.len() == cols@.len(),
        filas_validas(old(res)@, cols@.len() as int),
    ensures
        final(res)@ == insertar_fila(ord@, cols.deep_view(), fila, old(res)@),
        filas_validas(final(res)@, cols@.len() as int),
{
    let ghost s = res@;
    let j = posicion_insercion(ord, cols, &fila, res);
    proof {
        lemma_insertar_indice(ord@, cols.deep_view(), fila, s, j as int);
    }
    res.insert(j, fila);
    proof {
        assert(res@ =~= s.subrange(0, j as int) + seq![res@[j as int]] + s.subrange(
            j as int,
            s.len() as int,
        ));
    }
}

/// Validates the sort keys against the header and sorts the rows stably by
/// them; without ORDER BY the rows come back unchanged.
pub fn ordenar_lineas_select(
    select: &Select,
    lineas_filtradas: Vec<Vec<String>>,
    columnas_csv: &Vec<String>,
) -> (r: Result<Vec<Vec<String>>, ErrorPrograma>)
    requires
        filas_validas(lineas_filtradas@, columnas_csv@.len() as int),
    ensures
        match r {
            Ok(out) => {
                &&& (select.order_by is None ==> out@ == lineas_filtradas@)
                &&& (select.order_by is Some ==> (forall|i: int|
                    0 <= i < select.order_by->Some_0@.len() ==> contiene_col(
                        columnas_csv.deep_view(),
                        select.order_by->Some_0@[i].columna@,
                    )) && out@ == ordenar_filas(
                    select.order_by->Some_0@,
                    columnas_csv.deep_view(),
                    lineas_filtradas@,
                ))
                &&& filas_validas(out@, columnas_csv@.len() as int)
            },
            Err(e) => select.order_by is Some && (exists|i: int|
                0 <= i < select.order_by->Some_0@.len() && !contiene_col(
                    columnas_csv.deep_view(),
                    select.order_by->Some_0@[i].columna@,
                )) && e.tipo_spec() == ErrorTipo::Column,
        },
{
    match &select.order_by {
        None => Ok(lineas_filtradas),
        Some(ordenamientos) => {
            let mut v: usize = 0;
            while v < ordenamientos.len()
                invariant
                    v <= ordenamientos@.len(),
                    select.order_by == Some(*ordenamientos),
                    forall|j: int|
                        0 <= j < v ==> contiene_col(
                            columnas_csv.deep_view(),
                            ordenamientos@[j].columna@,
                        ),
                decreases ordenamientos@.len() - v,
            {
                let clave = a_chars(ordenamientos[v].columna.as_str());
                let p = busca_col(columnas_csv, &clave);
                proof {
                    assert(columnas_csv.deep_view().len() == columnas_csv@.len());
                }
                if p >= columnas_csv.len() {
                    proof {
                        assert(select.order_by->Some_0 == *ordenamientos);
                        assert(!contiene_col(
                            columnas_csv.deep_view(),
                            ordenamientos@[v as int].columna@,
                        ));
                        assert(exists|i: int|
                            0 <= i < ordenamientos@.len() && !contiene_col(
                                columnas_csv.deep_view(),
                                ordenamientos@[i].columna@,
                            ));
                    }
                    let mut descripcion = String::from_str("La columna '");
                    descripcion.append(ordenamientos[v].columna.as_str());
                    descripcion.append(
                        "' ingresada en ORDER BY clause no se encuentra en el csv.",
                    );
                    return Err(ErrorPrograma::new(ErrorTipo::Column, descripcion.as_str()));
                }
                v += 1;
            }
            let ghost todas = lineas_filtradas@;
            let mut restantes = lineas_filtradas;
            let mut resultado: Vec<Vec<String>> = Vec::new();
            let ghost k: int = 0;
            proof {
                assert(todas.subrange(0, 0) =~= Seq::<Vec<String>>::empty());
                assert(restantes@ =~= todas.subrange(0, todas.len() as int));
            }
            let total = restantes.len();
            let mut procesadas: usize = 0;
            while restantes.len() > 0
                invariant
                    select.order_by == Some(*ordenamientos),
                    todas.len() == total,
                    procesadas <= todas.len(),
                    restantes@ == todas.subrange(procesadas as int, todas.len() as int),
                    filas_validas(todas, columnas_csv@.len() as int),
                    resultado@ == ordenar_filas(
                        ordenamientos@,
                        columnas_csv.deep_view(),
                        todas.subrange(0, procesadas as int),
                    ),
                    filas_validas(resultado@, columnas_csv@.len() as int),
                decreases restantes@.len(),
            {
                proof {
                    assert(restantes@[0] == todas[procesadas as int]);
                    assert(todas[procesadas as int]@.len() == columnas_csv@.len());
                }
                let fila = restantes.remove(0);
                proof {
                    assert(restantes@ =~= todas.subrange(procesadas as int + 1, todas.len() as int));
                }
                insertar_ordenado(ordenamientos, columnas_csv, fila, &mut resultado);
                proof {
                    let pref = todas.subrange(0, procesadas as int + 1);
                    assert(pref.last() == todas[procesadas as int]);
                    assert(pref.drop_last() =~= todas.subrange(0, procesadas as int));
                    assert(resultado@ == ordenar_filas(
                        ordenamientos@,
                        columnas_csv.deep_view(),
                        pref,
                    ));
                }
                procesadas += 1;
            }
            proof {
                assert(todas.subrange(0, todas.len() as int) =~= todas);
            }
            Ok(resultado)
        },
    }
}

} // verus!

verus! {

/// Swapping the rows negates the comparison.
pub proof fn lemma_compara_opuesta(
    ord: Seq<OrderByClause>,
    cols: Seq<Seq<char>>,
    a: Seq<Seq<char>>,
    b: Seq<Seq<char>>,
)
    ensures
        compara_filas(ord, cols, a, b) == -compara_filas(ord, cols, b, a),
    decreases ord.len(),
{
    if ord.len() > 0 {
        let p = pos_col(cols, ord[0].columna@);
        let i = if p < cols.len() {
            p
        } else {
            0
        };
        let x = if i < a.len() {
            a[i]
        } else {
            Seq::<char>::empty()
        };
        let y = if i < b.len() {
            b[i]
        } else {
            Seq::<char>::empty()
        };
        crate::cadenas::lemma_lex_tricotomia(x, y);
        crate::cadenas::lemma_lex_asimetria(x, y);
        crate::cadenas::lemma_lex_irreflexiva(x);
        crate::cadenas::lemma_lex_irreflexiva(y);
        lemma_compara_opuesta(ord.drop_first(), cols, a, b);
    }
}

/// A key comparison is zero exactly when the key fields are equal.
proof fn lemma_clave_cero(
    ord: Seq<OrderByClause>,
    cols: Seq<Seq<char>>,
    a: Seq<Seq<char>>,
    b: Seq<Seq<char>>,
)
    requires
        ord.len() > 0,
    ensures
        ({
            let p = pos_col(cols, ord[0].columna@);
            let i = if p < cols.len() {
                p
            } else {
                0
            };
            let x = if i < a.len() {
                a[i]
            } else {
                Seq::<char>::empty()
            };
            let y = if i < b.len() {
                b[i]
            } else {
                Seq::<char>::empty()
            };
            let c: int = if lex_lt(x, y) {
                -1
            } else if x == y {
                0
            } else {
                1
            };
            let c2: int = match ord[0].orden {
                Order::Asc => c,
                Order::Desc => -c,
            };
            c2 == 0 <==> x == y
        }),
{
    let p = pos_col(cols, ord[0].columna@);
    let i = if p < cols.len() {
        p
    } else {
        0
    };
    let x = if i < a.len() {
        a[i]
    } else {
        Seq::<char>::empty()
    };
    let y = if i < b.len() {
        b[i]
    } else {
        Seq::<char>::empty()
    };
    crate::cadenas::lemma_lex_irreflexiva(x);
}

/// The row comparison is transitive; a strict step on either side keeps
/// the result strict.
pub proof fn lemma_compara_transitiva(
    ord: Seq<OrderByClause>,
    cols: Seq<Seq<char>>,
    a: Seq<Seq<char>>,
    b: Seq<Seq<char>>,
    c: Seq<Seq<char>>,
)
    requires
        compara_filas(ord, cols, a, b) <= 0,
        compara_filas(ord, cols, b, c) <= 0,
    ensures
        compara_filas(ord, cols, a, c) <= 0,
        compara_filas(ord, cols, a, b) < 0 || compara_filas(ord, cols, b, c) < 0
            ==> compara_filas(ord, cols, a, c) < 0,
    decreases ord.len(),
{
    if ord.len() > 0 {
        let p = pos_col(cols, ord[0].columna@);
        let i = if p < cols.len() {
            p
        } else {
            0
        };
        let xa = if i < a.len() {
            a[i]
        } else {
            Seq::<char>::empty()
        };
        let xb = if i < b.len() {
            b[i]
        } else {
            Seq::<char>::empty()
        };
        let xc = if i < c.len() {
            c[i]
        } else {
            Seq::<char>::empty()
        };
        lemma_clave_cero(ord, cols, a, b);
        lemma_clave_cero(ord, cols, b, c);
        lemma_clave_cero(ord, cols, a, c);
        crate::cadenas::lemma_lex_asimetria(xa, xb);
        crate::cadenas::lemma_lex_asimetria(xb, xc);
        crate::cadenas::lemma_lex_asimetria(xa, xc);
        crate::cadenas::lemma_lex_tricotomia(xa, xb);
        crate::cadenas::lemma_lex_tricotomia(xb, xc);
        crate::cadenas::lemma_lex_tricotomia(xa, xc);
        if lex_lt(xa, xb) && lex_lt(xb, xc) {
            crate::cadenas::lemma_lex_transitiva(xa, xb, xc);
        }
        if lex_lt(xb, xa) && lex_lt(xc, xb) {
            crate::cadenas::lemma_lex_transitiva(xc, xb, xa);
        }
        if xa == xb && xb == xc {
            lemma_compara_transitiva(ord.drop_first(), cols, a, b, c);
        }
    }
}

/// The rows stand in weakly ascending order under the keys.
pub open spec fn ordenada(
    ord: Seq<OrderByClause>,
    cols: Seq<Seq<char>>,
    s: Seq<Vec<String>>,
) -> bool {
    forall|i: int, j: int|
        0 <= i < j < s.len() ==> compara_filas(
            ord,
            cols,
            #[trigger] s[i].deep_view(),
            #[trigger] s[j].deep_view(),
        ) <= 0
}

/// Inserting a row at its stable position keeps the rows ordered.
proof fn lemma_insertar_ordenada(
    ord: Seq<OrderByClause>,
    cols: Seq<Seq<char>>,
    x: Vec<String>,
    s: Seq<Vec<String>>,
)
    requires
        ordenada(ord, cols, s),
    ensures
        ordenada(ord, cols, insertar_fila(ord, cols, x, s)),
        insertar_fila(ord, cols, x, s).len() == s.len() + 1,
    decreases s.len(),
{
    if s.len() == 0 {
    } else if compara_filas(ord, cols, x.deep_view(), s[0].deep_view()) < 0 {
        let t = seq![x] + s;
        assert forall|i: int, j: int| 0 <= i < j < t.len() implies compara_filas(
            ord,
            cols,
            #[trigger] t[i].deep_view(),
            #[trigger] t[j].deep_view(),
        ) <= 0 by {
            if i == 0 {
                assert(t[0] == x);
                assert(t[j] == s[j - 1]);
                if j > 1 {
                    lemma_compara_transitiva(
                        ord,
                        cols,
                        x.deep_view(),
                        s[0].deep_view(),
                        s[j - 1].deep_view(),
                    );
                }
            } else {
                assert(t[i] == s[i - 1]);
                assert(t[j] == s[j - 1]);
            }
        }
    } else {
        let s2 = s.drop_first();
        assert(forall|i: int, j: int|
            0 <= i < j < s2.len() ==> compara_filas(
                ord,
                cols,
                #[trigger] s2[i].deep_view(),
                #[trigger] s2[j].deep_view(),
            ) <= 0);
        lemma_insertar_ordenada(ord, cols, x, s2);
        let r = insertar_fila(ord, cols, x, s2);
        let t = seq![s[0]] + r;
        lemma_compara_opuesta(ord, cols, x.deep_view(), s[0].deep_view());
        lemma_insertar_miembros(ord, cols, x, s2);
        assert forall|i: int, j: int| 0 <= i < j < t.len() implies compara_filas(
            ord,
            cols,
            #[trigger] t[i].deep_view(),
            #[trigger] t[j].deep_view(),
        ) <= 0 by {
            if i == 0 {
                assert(t[0] == s[0]);
                assert(t[j] == r[j - 1]);
                if r[j - 1] == x {
                    assert(compara_filas(ord, cols, s[0].deep_view(), x.deep_view()) <= 0);
                } else {
                    assert(s2.contains(r[j - 1]));
                    let k = choose|k: int| 0 <= k < s2.len() && s2[k] == r[j - 1];
                    assert(s[0] == s.first());
                    assert(compara_filas(ord, cols, s[0].deep_view(), s2[k].deep_view()) <= 0);
                }
            } else {
                assert(t[i] == r[i - 1]);
                assert(t[j] == r[j - 1]);
            }
        }
    }
}

/// Every row of an insertion result is the inserted row or one of the
/// earlier rows.
proof fn lemma_insertar_miembros(
    ord: Seq<OrderByClause>,
    cols: Seq<Seq<char>>,
    x: Vec<String>,
    s: Seq<Vec<String>>,
)
    ensures
        insertar_fila(ord, cols, x, s).len() == s.len() + 1,
        forall|j: int|
            0 <= j < insertar_fila(ord, cols, x, s).len() ==> (#[trigger] insertar_fila(
                ord,
                cols,
                x,
                s,
            )[j] == x || s.contains(insertar_fila(ord, cols, x, s)[j])),
    decreases s.len(),
{
    if s.len() == 0 {
    } else if compara_filas(ord, cols, x.deep_view(), s[0].deep_view()) < 0 {
    } else {
        lemma_insertar_miembros(ord, cols, x, s.drop_first());
        let r = insertar_fila(ord, cols, x, s.drop_first());
        let t = seq![s[0]] + r;
        assert forall|j: int| 0 <= j < t.len() implies (#[trigger] t[j] == x || s.contains(
            t[j],
        )) by {
            if j == 0 {
                assert(t[0] == s[0] && s.contains(s[0]));
            } else {
                assert(t[j] == r[j - 1]);
                if r[j - 1] != x {
                    assert(s.drop_first().contains(r[j - 1]));
                    let k = choose|k: int|
                        0 <= k < s.drop_first().len() && s.drop_first()[k] == r[j - 1];
                    assert(s[k + 1] == r[j - 1]);
                }
            }
        }
    }
}

/// The reference sort leaves the rows in weakly ascending key order.
pub proof fn lemma_ordenar_ordenada(
    ord: Seq<OrderByClause>,
    cols: Seq<Seq<char>>,
    s: Seq<Vec<String>>,
)
    ensures
        ordenada(ord, cols, ordenar_filas(ord, cols, s)),
    decreases s.len(),
{
    if s.len() > 0 {
        lemma_ordenar_ordenada(ord, cols, s.drop_last());
        lemma_insertar_ordenada(ord, cols, s.last(), ordenar_filas(ord, cols, s.drop_last()));
    }
}

/// The reference sort permutes the rows: same rows, same multiplicities.
pub proof fn lemma_ordenar_permutacion(
    ord: Seq<OrderByClause>,
    cols: Seq<Seq<char>>,
    s: Seq<Vec<String>>,
)
    ensures
        ordenar_filas(ord, cols, s).to_multiset() == s.to_multiset(),
    decreases s.len(),
{
    broadcast use vstd::seq_lib::group_to_multiset_ensures;

    if s.len() > 0 {
        lemma_ordenar_permutacion(ord, cols, s.drop_last());
        lemma_insertar_multiset(ord, cols, s.last(), ordenar_filas(ord, cols, s.drop_last()));
        assert(s =~= s.drop_last().push(s.last()));
        assert(s.drop_last().push(s.last()).to_multiset() =~= s.drop_last().to_multiset().insert(
            s.last(),
        ));
    }
}

proof fn lemma_insertar_multiset(
    ord: Seq<OrderByClause>,
    cols: Seq<Seq<char>>,
    x: Vec<String>,
    s: Seq<Vec<String>>,
)
    ensures
        insertar_fila(ord, cols, x, s).to_multiset() == s.to_multiset().insert(x),
    decreases s.len(),
{
    broadcast use vstd::seq_lib::group_to_multiset_ensures;
    broadcast use vstd::seq_lib::lemma_multiset_commutative;

    if s.len() == 0 {
        assert(insertar_fila(ord, cols, x, s) =~= seq![x]);
        assert(seq![x] =~= Seq::<Vec<String>>::empty().push(x));
        assert(Seq::<Vec<String>>::empty().push(x).to_multiset()
            =~= Seq::<Vec<String>>::empty().to_multiset().insert(x));
    } else if compara_filas(ord, cols, x.deep_view(), s[0].deep_view()) < 0 {
        let t = seq![x] + s;
        assert(t.to_multiset() =~= seq![x].to_multiset().add(s.to_multiset()));
        assert(seq![x] =~= Seq::<Vec<String>>::empty().push(x));
        assert(seq![x].to_multiset() =~= Multiset::<Vec<String>>::empty().insert(x));
        assert(Multiset::<Vec<String>>::empty().insert(x).add(s.to_multiset()) =~= s.to_multiset()
            .insert(x));
    } else {
        lemma_insertar_multiset(ord, cols, x, s.drop_first());
        let r = insertar_fila(ord, cols, x, s.drop_first());
        let t = seq![s[0]] + r;
        assert(t.to_multiset() =~= seq![s[0]].to_multiset().add(r.to_multiset()));
        assert(seq![s[0]] =~= Seq::<Vec<String>>::empty().push(s[0]));
        assert(seq![s[0]].to_multiset() =~= Multiset::<Vec<String>>::empty().insert(s[0]));
        assert(s =~= seq![s[0]] + s.drop_first());
        assert(s.to_multiset() =~= seq![s[0]].to_multiset().add(s.drop_first().to_multiset()));
        assert(Multiset::<Vec<String>>::empty().insert(s[0]).add(
            s.drop_first().to_multiset().insert(x),
        ) =~= s.to_multiset().insert(x));
    }
}

} // verus!

verus! {

proof fn lemma_filter_unitaria(v: Vec<String>, p: spec_fn(Vec<String>) -> bool)
    ensures
        seq![v].filter(p) == if p(v) {
            seq![v]
        } else {
            Seq::<Vec<String>>::empty()
        },
{
    reveal(Seq::filter);
    assert(seq![v].drop_last() =~= Seq::<Vec<String>>::empty());
    assert(Seq::<Vec<String>>::empty().filter(p) =~= Seq::<Vec<String>>::empty());
    if p(v) {
        assert(seq![v].filter(p) =~= seq![v]);
    } else {
        assert(seq![v].filter(p) =~= Seq::<Vec<String>>::empty());
    }
}

/// Inserting a row at its stable position appends it to its key class and
/// leaves every other key class unchanged.
proof fn lemma_insertar_filter(
    ord: Seq<OrderByClause>,
    cols: Seq<Seq<char>>,
    x: Vec<String>,
    t: Seq<Vec<String>>,
    p: spec_fn(Vec<String>) -> bool,
    f: Vec<String>,
)
    requires
        ordenada(ord, cols, t),
        forall|g: Vec<String>| #[trigger] p(g) == claves_iguales(ord, cols, g.deep_view(), f.deep_view()),
    ensures
        insertar_fila(ord, cols, x, t).filter(p) == if p(x) {
            t.filter(p).push(x)
        } else {
            t.filter(p)
        },
    decreases t.len(),
{
    broadcast use vstd::seq_lib::group_filter_ensures;

    if t.len() == 0 {
        lemma_filter_unitaria(x, p);
        assert(t.filter(p) =~= Seq::<Vec<String>>::empty());
        if p(x) {
            assert(seq![x] =~= Seq::<Vec<String>>::empty().push(x));
        }
    } else if compara_filas(ord, cols, x.deep_view(), t[0].deep_view()) < 0 {
        let r = seq![x] + t;
        Seq::filter_distributes_over_add(seq![x], t, p);
        lemma_filter_unitaria(x, p);
        if p(x) {
            assert forall|k: int| 0 <= k < t.len() implies !p(t[k]) by {
                if k > 0 {
                    lemma_compara_transitiva(
                        ord,
                        cols,
                        x.deep_view(),
                        t[0].deep_view(),
                        t[k].deep_view(),
                    );
                }
                if p(t[k]) {
                    lemma_compara_opuesta(ord, cols, t[k].deep_view(), f.deep_view());
                    lemma_compara_opuesta(ord, cols, x.deep_view(), f.deep_view());
                    lemma_compara_transitiva(
                        ord,
                        cols,
                        x.deep_view(),
                        f.deep_view(),
                        t[k].deep_view(),
                    );
                    lemma_compara_transitiva(
                        ord,
                        cols,
                        t[k].deep_view(),
                        f.deep_view(),
                        x.deep_view(),
                    );
                    lemma_compara_opuesta(ord, cols, x.deep_view(), t[k].deep_view());
                }
            }
            t.lemma_all_neg_filter_empty(p);
            assert(seq![x] + Seq::<Vec<String>>::empty() =~= Seq::<Vec<String>>::empty().push(x));
        } else {
            assert(Seq::<Vec<String>>::empty() + t.filter(p) =~= t.filter(p));
        }
    } else {
        let t2 = t.drop_first();
        assert(forall|i: int, j: int|
            0 <= i < j < t2.len() ==> compara_filas(
                ord,
                cols,
                #[trigger] t2[i].deep_view(),
                #[trigger] t2[j].deep_view(),
            ) <= 0);
        lemma_insertar_filter(ord, cols, x, t2, p, f);
        let r2 = insertar_fila(ord, cols, x, t2);
        Seq::filter_distributes_over_add(seq![t[0]], r2, p);
        assert(t =~= seq![t[0]] + t2);
        Seq::filter_distributes_over_add(seq![t[0]], t2, p);
        lemma_filter_unitaria(t[0], p);
        if p(x) {
            assert(seq![t[0]].filter(p) + t2.filter(p).push(x) =~= (seq![t[0]].filter(p)
                + t2.filter(p)).push(x));
        }
    }
}

/// ORDER BY stability: for any predicate `p` that selects exactly the rows
/// whose sort keys all equal those of a chosen row `f`, the selected rows
/// of the sorted output stand in the same order as in the input.
pub proof fn lemma_ordenar_estable(
    ord: Seq<OrderByClause>,
    cols: Seq<Seq<char>>,
    s: Seq<Vec<String>>,
    p: spec_fn(Vec<String>) -> bool,
    f: Vec<String>,
)
    requires
        forall|g: Vec<String>| #[trigger] p(g) == claves_iguales(ord, cols, g.deep_view(), f.deep_view()),
    ensures
        ordenar_filas(ord, cols, s).filter(p) == s.filter(p),
    decreases s.len(),
{
    reveal(Seq::filter);
    if s.len() > 0 {
        lemma_ordenar_estable(ord, cols, s.drop_last(), p, f);
        lemma_ordenar_ordenada(ord, cols, s.drop_last());
        lemma_insertar_filter(ord, cols, s.last(), ordenar_filas(ord, cols, s.drop_last()), p, f);
    }
}

} // verus!
