use sql_csv::ejecutor::aplicar_delete;
use sql_csv::ejecutor::aplicar_insert;
use sql_csv::ejecutor::aplicar_select;
use sql_csv::ejecutor::aplicar_update;
use sql_csv::ejecutor::dividir_linea;
use sql_csv::errors::ErrorTipo;
use sql_csv::query_identifier::analisar_query;
use sql_csv::query_identifier::Consulta;
use sql_csv::query_identifier::Delete;

fn filas_de(lineas: &[&str]) -> Vec<Vec<String>> {
    let mut filas = Vec::new();
    for linea in lineas {
        filas.push(dividir_linea(linea));
    }
    filas
}

fn clientes() -> (Vec<String>, Vec<Vec<String>>) {
    (dividir_linea("id,nombre"), filas_de(&["1,Ana", "2,Beto"]))
}

fn seleccionar(query: &str, cols: &Vec<String>, filas: Vec<Vec<String>>) -> Result<Vec<Vec<String>>, sql_csv::errors::ErrorPrograma> {
    match analisar_query(query).unwrap() {
        Consulta::Select(select) => aplicar_select(&select, cols, filas),
        _ => panic!("se esperaba una consulta SELECT"),
    }
}

// Scenario A: SELECT * FROM clientes WHERE id = 1 returns the header line
// id,nombre and then 1,Ana.
#[test]
fn test_select_escenario_filtra_por_id() {
    let (cols, filas) = clientes();
    let salida = seleccionar("SELECT * FROM clientes WHERE id = 1", &cols, filas).unwrap();
    assert_eq!(salida, vec![dividir_linea("id,nombre"), dividir_linea("1,Ana")]);
}

// Scenario B: DELETE FROM clientes WHERE id > 1 leaves only 1,Ana.
#[test]
fn test_delete_escenario_deja_solo_ana() {
    let (cols, filas) = clientes();
    let delete = match analisar_query("DELETE FROM clientes WHERE id > 1").unwrap() {
        Consulta::Delete(d) => d,
        _ => panic!("se esperaba una consulta DELETE"),
    };
    let salida = aplicar_delete(&delete, &cols, filas).unwrap();
    assert_eq!(salida, vec![dividir_linea("1,Ana")]);
}

// Scenario C: INSERT INTO clientes (id,nombre) VALUES (3,'Caro') appends
// the row 3,Caro.
#[test]
fn test_insert_escenario_agrega_caro() {
    let (cols, _) = clientes();
    let insert = match analisar_query("INSERT INTO clientes (id,nombre) VALUES (3,'Caro')").unwrap()
    {
        Consulta::Insert(i) => i,
        _ => panic!("se esperaba una consulta INSERT"),
    };
    let nuevas = aplicar_insert(&cols, &insert.nombre_col, &insert.valores).unwrap();
    assert_eq!(nuevas, vec![dividir_linea("3,Caro")]);
}

// Scenario D: SELECT * FROM clientes ORDER BY nombre DESC returns 2,Beto
// and then 1,Ana.
#[test]
fn test_select_escenario_orden_descendente() {
    let (cols, filas) = clientes();
    let salida = seleccionar("SELECT * FROM clientes ORDER BY nombre DESC", &cols, filas).unwrap();
    assert_eq!(
        salida,
        vec![dividir_linea("id,nombre"), dividir_linea("2,Beto"), dividir_linea("1,Ana")]
    );
}

// Scenario E: a DELETE without WHERE fails with a Syntax error and touches
// nothing.
#[test]
fn test_delete_escenario_sin_where_falla() {
    let (cols, filas) = clientes();
    let delete = Delete::new("clientes", None, None);
    let error = aplicar_delete(&delete, &cols, filas).unwrap_err();
    assert_eq!(error.tipo(), ErrorTipo::Syntax);
}

// Scenario F: SELECT *, id FROM clientes fails because `*` is combined
// with a named column.
#[test]
fn test_select_escenario_asterisco_y_columna_falla() {
    let (cols, filas) = clientes();
    let error = seleccionar("SELECT *, id FROM clientes", &cols, filas).unwrap_err();
    assert_eq!(error.tipo(), ErrorTipo::Column);
}

// Numeric comparison: WHERE id > 9 on the value 10 holds numerically,
// where a string comparison would drop the row.
#[test]
fn test_where_compara_numeros_no_cadenas() {
    let cols = dividir_linea("id,nombre");
    let filas = filas_de(&["10,Ana", "9,Beto", "5,Caro"]);
    let salida = seleccionar("SELECT * FROM clientes WHERE id > 9", &cols, filas).unwrap();
    assert_eq!(salida, vec![dividir_linea("id,nombre"), dividir_linea("10,Ana")]);
}

// Lexicographic comparison: WHERE nombre > 'Ann' keeps Beto and drops Ana.
#[test]
fn test_where_compara_cadenas_lexicograficamente() {
    let (cols, filas) = clientes();
    let salida = seleccionar("SELECT * FROM clientes WHERE nombre > 'Ann'", &cols, filas).unwrap();
    assert_eq!(salida, vec![dividir_linea("id,nombre"), dividir_linea("2,Beto")]);
}

// An INSERT fills unlisted columns with empty fields and strips quotes.
#[test]
fn test_insert_columnas_no_listadas_quedan_vacias() {
    let cols = dividir_linea("id,nombre,apellido");
    let nuevas = aplicar_insert(&cols, "apellido,id", &vec!["'Cano', 7".to_string()]).unwrap();
    assert_eq!(nuevas, vec![vec!["7".to_string(), String::new(), "Cano".to_string()]]);
}

// An UPDATE keeps the row count; a DELETE drops exactly the matching rows.
#[test]
fn test_update_y_delete_conservan_la_cuenta() {
    let cols = dividir_linea("id,nombre");
    let filas = filas_de(&["1,Ana", "2,Beto", "3,Caro"]);
    let update = match analisar_query("UPDATE clientes SET nombre = 'X' WHERE id = 2").unwrap() {
        Consulta::Update(u) => u,
        _ => panic!("se esperaba una consulta UPDATE"),
    };
    let tras_update = aplicar_update(&update, &cols, filas.clone()).unwrap();
    assert_eq!(tras_update.len(), 3);
    assert_eq!(tras_update[1], dividir_linea("2,X"));
    let delete = match analisar_query("DELETE FROM clientes WHERE id > 1").unwrap() {
        Consulta::Delete(d) => d,
        _ => panic!("se esperaba una consulta DELETE"),
    };
    let tras_delete = aplicar_delete(&delete, &cols, filas).unwrap();
    assert_eq!(tras_delete.len(), 1);
}

// Idempotence: running the same UPDATE twice leaves what one run leaves.
#[test]
fn test_update_es_idempotente() {
    let cols = dividir_linea("id,nombre");
    let filas = filas_de(&["1,Ana", "2,Beto", "3,Caro"]);
    let update = match analisar_query("UPDATE clientes SET nombre = 'X' WHERE id = 2").unwrap() {
        Consulta::Update(u) => u,
        _ => panic!("se esperaba una consulta UPDATE"),
    };
    let una_vez = aplicar_update(&update, &cols, filas).unwrap();
    let dos_veces = aplicar_update(&update, &cols, una_vez.clone()).unwrap();
    assert_eq!(una_vez, dos_veces);
}

// An UPDATE whose SET rewrites the predicate column is idempotent too.
#[test]
fn test_update_que_cambia_la_columna_del_where_es_idempotente() {
    let cols = dividir_linea("id,nombre");
    let filas = filas_de(&["1,Ana", "2,Beto"]);
    let update = match analisar_query("UPDATE clientes SET id = 9 WHERE id = 2").unwrap() {
        Consulta::Update(u) => u,
        _ => panic!("se esperaba una consulta UPDATE"),
    };
    let una_vez = aplicar_update(&update, &cols, filas).unwrap();
    assert_eq!(una_vez[1], dividir_linea("9,Beto"));
    let dos_veces = aplicar_update(&update, &cols, una_vez.clone()).unwrap();
    assert_eq!(una_vez, dos_veces);
}

// Stability: rows with equal sort keys keep their original relative order.
#[test]
fn test_orden_estable_con_claves_iguales() {
    let cols = dividir_linea("grupo,nombre");
    let filas = filas_de(&["b,primero", "a,tercero", "b,segundo", "a,cuarto"]);
    let salida = seleccionar("SELECT * FROM t ORDER BY grupo", &cols, filas).unwrap();
    assert_eq!(
        salida,
        vec![
            dividir_linea("grupo,nombre"),
            dividir_linea("a,tercero"),
            dividir_linea("a,cuarto"),
            dividir_linea("b,primero"),
            dividir_linea("b,segundo"),
        ]
    );
}

// The second sort key only breaks ties of the first.
#[test]
fn test_orden_con_dos_claves() {
    let cols = dividir_linea("grupo,nombre");
    let filas = filas_de(&["b,zeta", "a,beta", "b,alfa", "a,gama"]);
    let salida =
        seleccionar("SELECT * FROM t ORDER BY grupo ASC, nombre DESC", &cols, filas).unwrap();
    assert_eq!(
        salida,
        vec![
            dividir_linea("grupo,nombre"),
            dividir_linea("a,gama"),
            dividir_linea("a,beta"),
            dividir_linea("b,zeta"),
            dividir_linea("b,alfa"),
        ]
    );
}

// The projection keeps the requested order of columns.
#[test]
fn test_select_proyecta_en_el_orden_pedido() {
    let cols = dividir_linea("id,nombre,apellido");
    let filas = filas_de(&["1,Ana,Arias"]);
    let salida = seleccionar("SELECT apellido, id FROM t", &cols, filas).unwrap();
    assert_eq!(salida, vec![dividir_linea("apellido,id"), dividir_linea("Arias,1")]);
}

// A SET pair without a known column is a Column error; a malformed pair is
// a Syntax error.
#[test]
fn test_update_errores_de_set() {
    let cols = dividir_linea("id,nombre");
    let filas = filas_de(&["1,Ana"]);
    let update = match analisar_query("UPDATE t SET edad = 9 WHERE id = 1").unwrap() {
        Consulta::Update(u) => u,
        _ => panic!("se esperaba una consulta UPDATE"),
    };
    assert_eq!(aplicar_update(&update, &cols, filas.clone()).unwrap_err().tipo(), ErrorTipo::Column);
    let update2 = match analisar_query("UPDATE t SET nombre WHERE id = 1").unwrap() {
        Consulta::Update(u) => u,
        _ => panic!("se esperaba una consulta UPDATE"),
    };
    assert_eq!(aplicar_update(&update2, &cols, filas).unwrap_err().tipo(), ErrorTipo::Syntax);
}

// A WHERE whose operands resolve against no column is a Column error.
#[test]
fn test_where_sin_columnas_es_error_de_columna() {
    let (cols, filas) = clientes();
    let error = seleccionar("SELECT * FROM clientes WHERE 4 = 4", &cols, filas).unwrap_err();
    assert_eq!(error.tipo(), ErrorTipo::Column);
}

// es_int accepts signed base-10 integers in range and nothing else.
#[test]
fn test_es_int_reconoce_enteros() {
    assert!(sql_csv::cadenas::es_int("0"));
    assert!(sql_csv::cadenas::es_int("-17"));
    assert!(sql_csv::cadenas::es_int("+42"));
    assert!(sql_csv::cadenas::es_int("2147483647"));
    assert!(sql_csv::cadenas::es_int("-2147483648"));
    assert!(sql_csv::cadenas::es_int("0000000000123"));
    assert!(!sql_csv::cadenas::es_int("2147483648"));
    assert!(!sql_csv::cadenas::es_int("12a"));
    assert!(!sql_csv::cadenas::es_int(""));
    assert!(!sql_csv::cadenas::es_int("-"));
    assert!(!sql_csv::cadenas::es_int("1.5"));
}

// The error message carries the kind and the description.
#[test]
fn test_mensaje_de_error() {
    let error = sql_csv::errors::ErrorPrograma::new(ErrorTipo::Table, "la tabla no aparece");
    assert_eq!(error.mensaje(), "Invalid Table: la tabla no aparece");
    assert_eq!(error.descripcion(), "la tabla no aparece");
}

// The connector folding reads the clause list left to right: a clause
// followed by OR closes the conjunctive run without adding its own value,
// so in `id = 1 OR nombre = 'Beto'` only the second clause decides.
#[test]
fn test_or_descarta_la_clausula_que_lo_precede() {
    let (cols, filas) = clientes();
    let salida = seleccionar(
        "SELECT * FROM clientes WHERE id = 1 OR nombre = 'Beto'",
        &cols,
        filas,
    )
    .unwrap();
    assert_eq!(salida, vec![dividir_linea("id,nombre"), dividir_linea("2,Beto")]);
}

// An AND-run closed by OR becomes one branch, but the clause standing
// right before the OR is dropped with it: `nombre = 'Ana' AND id = 1 OR
// id = 3` keeps every Ana, whatever its id, plus the id 3 row.
#[test]
fn test_and_forma_una_rama_de_or() {
    let cols = dividir_linea("id,nombre");
    let filas = filas_de(&["1,Ana", "2,Ana", "3,Beto", "4,Caro"]);
    let salida = seleccionar(
        "SELECT * FROM clientes WHERE nombre = 'Ana' AND id = 1 OR id = 3",
        &cols,
        filas,
    )
    .unwrap();
    assert_eq!(
        salida,
        vec![
            dividir_linea("id,nombre"),
            dividir_linea("1,Ana"),
            dividir_linea("2,Ana"),
            dividir_linea("3,Beto"),
        ]
    );
}
