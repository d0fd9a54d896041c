// Whole statements run against in-memory tables: the statement text is
// parsed with analisar_query and the typed statement is applied to a
// table held as a header and rows.

use sql_csv::ejecutor::aplicar_delete;
use sql_csv::ejecutor::aplicar_insert;
use sql_csv::ejecutor::aplicar_select;
use sql_csv::ejecutor::aplicar_update;
use sql_csv::ejecutor::dividir_linea;
use sql_csv::errors::ErrorPrograma;
use sql_csv::query_identifier::analisar_query;
use sql_csv::query_identifier::Consulta;

fn tabla_clientes() -> (Vec<String>, Vec<Vec<String>>) {
    let cols = dividir_linea("id,nombre,apellido,email");
    let mut filas = Vec::new();
    filas.push(dividir_linea("1,Ana,Arias,ana.arias@gmail.com"));
    filas.push(dividir_linea("2,Ana,Blanco,ana.blanco@gmail.com"));
    filas.push(dividir_linea("3,Carlos,Cano,carlos.cano@gmail.com"));
    filas.push(dividir_linea("4,Carlos,Diaz,carlos.diaz@gmail.com"));
    filas.push(dividir_linea("5,Elena,Egea,elena.egea@gmail.com"));
    filas.push(dividir_linea("6,Fermin,Fuentes,fermin.fuentes@gmail.com"));
    (cols, filas)
}

fn tabla_appointment() -> (Vec<String>, Vec<Vec<String>>) {
    let cols = dividir_linea("AppointmentID,Physician,Patient,ExaminationRoom");
    let mut filas = Vec::new();
    filas.push(dividir_linea("13216584,1,100000001,A"));
    filas.push(dividir_linea("26548913,2,100000002,B"));
    filas.push(dividir_linea("36549879,3,100000003,A"));
    filas.push(dividir_linea("46846589,4,100000004,C"));
    (cols, filas)
}

fn ejecutar_en_memoria(
    cols: &Vec<String>,
    filas: Vec<Vec<String>>,
    query: &str,
) -> Result<Vec<Vec<String>>, ErrorPrograma> {
    match analisar_query(query)? {
        Consulta::Select(select) => aplicar_select(&select, cols, filas),
        Consulta::Insert(insert) => aplicar_insert(cols, &insert.nombre_col, &insert.valores),
        Consulta::Update(update) => aplicar_update(&update, cols, filas),
        Consulta::Delete(delete) => aplicar_delete(&delete, cols, filas),
    }
}

// Test 01: una query tipo select no devuelve error y se ejecuta correctamente.
#[test]
fn test_select_funciona_correcta() {
    let (cols, filas) = tabla_clientes();
    let resultado = ejecutar_en_memoria(&cols, filas, "SELECT * FROM clientes");
    assert!(resultado.is_ok());
}

// Test 02: una query select con Where y Order By se ejecuta correctamente.
#[test]
fn test_select_where_orderby() {
    let (cols, filas) = tabla_clientes();
    let query = "SELECT id, nombre, apellido FROM clientes WHERE id >= 3 AND nombre = 'Carlos' ORDER BY apellido";
    let resultado = ejecutar_en_memoria(&cols, filas, query).unwrap();
    assert_eq!(
        resultado,
        vec![
            dividir_linea("id,nombre,apellido"),
            dividir_linea("3,Carlos,Cano"),
            dividir_linea("4,Carlos,Diaz"),
        ]
    );
}

// Test 03: si se ingresa de manera incorrecta la consulta, devuelve error.
#[test]
fn test_select_query_mal_escritos() {
    let (cols, filas) = tabla_clientes();
    let query = "SELEECT id, nombre, apellido FROM clientes WHERE id >= 3 AND nombre = 'Carlos' ORDER BY apellido";
    let resultado = ejecutar_en_memoria(&cols, filas, query);
    assert!(resultado.is_err());
}

// Test 04: mezclar '*' con otras columnas devuelve error.
#[test]
fn test_select_nombre_tabla_incorrecto() {
    let (cols, filas) = tabla_clientes();
    let resultado = ejecutar_en_memoria(&cols, filas, "SELECT *, id, nombre, apellido FROM clientes");
    assert!(resultado.is_err());
}

// Test 07: no se puede pedir una columna que no existe en la tabla.
#[test]
fn test_select_columna_no_existe() {
    let (cols, filas) = tabla_clientes();
    let resultado = ejecutar_en_memoria(
        &cols,
        filas,
        "SELECT nombre, segundo_nombre FROM clientes WHERE nombre = 'Pedro'",
    );
    assert!(resultado.is_err());
}

// Test 07 bis: no se puede aplicar where sobre una columna que no existe.
#[test]
fn test_select_where_columna_no_existe() {
    let (cols, filas) = tabla_clientes();
    let resultado =
        ejecutar_en_memoria(&cols, filas, "SELECT * FROM clientes WHERE segundo_nombre = 'Pedro'");
    assert!(resultado.is_err());
}

// Test 08: muchas where clauses variadas en la query.
#[test]
fn test_select_muchas_where_clauses() {
    let (cols, filas) = tabla_appointment();
    let query = "SELECT * FROM appointment WHERE 3 <= Physician OR ExaminationRoom = 'A' AND Physician = 1 OR Patient >= 100000004 ORDER BY AppointmentID;";
    let resultado = ejecutar_en_memoria(&cols, filas, query);
    assert!(resultado.is_ok());
}

// Test 08 bis: muchas where clauses de tipo and y una or en la query.
#[test]
fn test_select_muchas_where_clauses_con_and() {
    let (cols, filas) = tabla_appointment();
    let query = "SELECT * FROM appointment WHERE Physician >= 3 AND ExaminationRoom = 'A' AND Physician = 1 OR Patient >= 100000004 AND Physician != 'C'";
    let resultado = ejecutar_en_memoria(&cols, filas, query);
    assert!(resultado.is_ok());
}

// Test 08 ter: no se puede ordenar por una columna que no existe.
#[test]
fn test_select_order_by_columna_no_existe() {
    let (cols, filas) = tabla_clientes();
    let resultado =
        ejecutar_en_memoria(&cols, filas, "SELECT * FROM clientes ORDER BY segundo_nombre");
    assert!(resultado.is_err());
}

// Test 09: se puede ordenar por todas las columnas.
#[test]
fn test_select_se_puede_ordenar_por_todas_las_columnas() {
    let (cols, filas) = tabla_clientes();
    let query = "SELECT * FROM clientes ORDER BY id ASC, nombre DESC, apellido, email DESC";
    let resultado = ejecutar_en_memoria(&cols, filas, query);
    assert!(resultado.is_ok());
}

// Test 10: una query tipo update se ejecuta correctamente.
#[test]
fn test_update_funciona_correctamente() {
    let (cols, filas) = tabla_clientes();
    let query = "UPDATE clientes_test_update SET nombre = 'Pedro' WHERE id = 1";
    let resultado = ejecutar_en_memoria(&cols, filas, query).unwrap();
    assert_eq!(resultado[0], dividir_linea("1,Pedro,Arias,ana.arias@gmail.com"));
    assert_eq!(resultado.len(), 6);
}

// Test 11: no hay error si se quieren modificar varios valores de la tabla.
#[test]
fn test_update_funciona_correctamente_con_varias_condiciones() {
    let (cols, filas) = tabla_clientes();
    let query = "UPDATE clientes_test_update SET nombre = 'Pedro', apellido = 'Cano', email = 'pedro.cano@gmail.com' WHERE id = 2";
    let resultado = ejecutar_en_memoria(&cols, filas, query).unwrap();
    assert_eq!(resultado[1], dividir_linea("2,Pedro,Cano,pedro.cano@gmail.com"));
}

// Test 13: se puede actualizar verificando varias clauses where.
#[test]
fn test_update_muchas_where_clauses() {
    let (cols, filas) = tabla_clientes();
    let query = "UPDATE clientes_test_update SET nombre = 'Pedro', apellido = 'Cano', id = 5 WHERE id = 3 AND nombre = 'Carlos'";
    let resultado = ejecutar_en_memoria(&cols, filas, query);
    assert!(resultado.is_ok());
}

// Test 15: no se puede actualizar una columna que no existe.
#[test]
fn test_update_columna_no_existe() {
    let (cols, filas) = tabla_clientes();
    let query = "UPDATE clientes_test_update SET segundo_nombre = 'Pedro', apellido = 'Cano' WHERE id = 4";
    let resultado = ejecutar_en_memoria(&cols, filas, query);
    assert!(resultado.is_err());
}

// Test 16: no se puede actualizar si ninguno de los valores del SET es una
// columna.
#[test]
fn test_update_set_sin_columna() {
    let (cols, filas) = tabla_clientes();
    let query = "UPDATE clientes_test_update SET 'Ana' = 'Pedro' WHERE id = 4;";
    let resultado = ejecutar_en_memoria(&cols, filas, query);
    assert!(resultado.is_err());
}

// Test 17: no se puede actualizar si la where clause no contiene columnas.
#[test]
fn test_update() {
    let (cols, filas) = tabla_clientes();
    let query = "UPDATE clientes_test_update SET 'Ana' = 'Pedro' WHERE 4 = 4;";
    let resultado = ejecutar_en_memoria(&cols, filas, query);
    assert!(resultado.is_err());
}

// Test 26: si una query update no tiene where, se modifican todos los
// registros.
#[test]
fn test_update_no_hay_where_clause() {
    let (cols, filas) = tabla_clientes();
    let query = "UPDATE clientes_test_update SET nombre = 'Pedro'";
    let resultado = ejecutar_en_memoria(&cols, filas, query).unwrap();
    assert_eq!(resultado.len(), 6);
    for fila in &resultado {
        assert_eq!(fila[1], "Pedro");
    }
}

// Test 18: una query tipo delete elimina un registro.
#[test]
fn test_delete_funciona_correctamente() {
    let (cols, filas) = tabla_clientes();
    let resultado =
        ejecutar_en_memoria(&cols, filas, "DELETE FROM clientes_test_delete WHERE id = 4").unwrap();
    assert_eq!(resultado.len(), 5);
}

// Test 19: una query tipo delete elimina muchos registros.
#[test]
fn test_delete_elimina_multiples() {
    let (cols, filas) = tabla_clientes();
    let resultado =
        ejecutar_en_memoria(&cols, filas, "DELETE FROM clientes_test_delete WHERE id > 4").unwrap();
    assert_eq!(resultado.len(), 4);
}

// Test 20: error en caso de querer eliminar con una where clause incorrecta.
#[test]
fn test_delete_columna_where_no_existe() {
    let (cols, filas) = tabla_clientes();
    let query = "DELETE FROM clientes_test_delete WHERE gmail != 'prueba@gmail.com'";
    let resultado = ejecutar_en_memoria(&cols, filas, query);
    assert!(resultado.is_err());
}

// Test 21: se puede eliminar verificando varias where clauses.
#[test]
fn test_delete_varias_where_clause() {
    let (cols, filas) = tabla_clientes();
    let query = "DELETE FROM clientes_test_delete WHERE id = 2 AND nombre = 'Ana'";
    let resultado = ejecutar_en_memoria(&cols, filas, query).unwrap();
    assert_eq!(resultado.len(), 5);
}

// Test 22: se testea insertar un solo registro.
#[test]
fn test_insert_un_registro() {
    let (cols, filas) = tabla_clientes();
    let query = "INSERT INTO clientes_test_insert (id, nombre, apellido, email) VALUES (7, 'Pedro', 'Cano', 'pedro.cano@gmail.com');";
    let resultado = ejecutar_en_memoria(&cols, filas, query).unwrap();
    assert_eq!(resultado, vec![dividir_linea("7,Pedro,Cano,pedro.cano@gmail.com")]);
}

// Test 22 bis: se testea insertar varios registros.
#[test]
fn test_insert_varios_registros() {
    let (cols, filas) = tabla_clientes();
    let query = "INSERT INTO clientes_test_insert (id, nombre, apellido, email) VALUES (8, 'Manuel', 'Alonso', 'manu.alonso@gmail.com'),
    (9,'Lucas', 'Bono', 'lucas.bono@gmail.com'),
    (10, 'Abril', 'Comesana', 'abril.comesana@gmail.com');";
    let resultado = ejecutar_en_memoria(&cols, filas, query).unwrap();
    assert_eq!(resultado.len(), 3);
    assert_eq!(resultado[1], dividir_linea("9,Lucas,Bono,lucas.bono@gmail.com"));
}

// Test 24: no se puede insertar si una columna no existe.
#[test]
fn test_insert_columna_no_existente() {
    let (cols, filas) = tabla_clientes();
    let query = "INSERT INTO clientes_test_insert (id, segundo, apellido, email) VALUES (7, 'Pedro', 'Cano', 'pedro.cano@gmail.com');";
    let resultado = ejecutar_en_memoria(&cols, filas, query);
    assert!(resultado.is_err());
}

// Test 25: sintaxis incorrecta en la query de insert.
#[test]
fn test_insert_sintaxis_incorrecta() {
    let (cols, filas) = tabla_clientes();
    let query =
        "INSERT INTO clientes_test_insert id VALUES (7, 'Pedro', 'Cano', 'pedro.cano@gmail.com');";
    let resultado = ejecutar_en_memoria(&cols, filas, query);
    assert!(resultado.is_err());
}
