use sql_csv::errors::ErrorTipo;
use sql_csv::query_identifier::analisar_query;
use sql_csv::query_identifier::identificar_tipo;
use sql_csv::query_identifier::Comparaciones;
use sql_csv::query_identifier::Consulta;
use sql_csv::query_identifier::Delete;
use sql_csv::query_identifier::Insert;
use sql_csv::query_identifier::LogicalOperators;
use sql_csv::query_identifier::Order;
use sql_csv::query_identifier::QueryType;
use sql_csv::query_identifier::Select;
use sql_csv::query_identifier::Update;

// Se verifica que se parsee correctamente la query de insert
#[test]
fn test_insert_parsear_query_funciona_correctamente() {
    let query = "INSERT INTO ordenes (id, id_cliente, producto, cantidad) VALUES (111, 6, 'Laptop', 3), (112, 4, 'Cargador', 4);"
        .to_string();
    let resultado = Insert::insert_parsear_query(&query);
    assert!(resultado.is_ok());
    let valor1 = "111, 6, 'Laptop', 3".to_string();
    let valor2 = "112, 4, 'Cargador', 4".to_string();
    let mut valores = Vec::new();
    valores.push(valor1);
    valores.push(valor2);
    let resultado_esperado = Insert::new("ordenes", "id, id_cliente, producto, cantidad", valores);

    assert_eq!(resultado.unwrap(), resultado_esperado);
}

// La misma verificacion sobre el parseo de insert, desde el lado de los
// tests del insert.
#[test]
fn test_insert_test_insert_parsear_query_funciona_correctamente() {
    let query = "INSERT INTO ordenes (id, id_cliente, producto, cantidad) VALUES (111, 6, 'Laptop', 3), (112, 4, 'Cargador', 4);"
        .to_string();
    let resultado = Insert::insert_parsear_query(&query);
    assert!(resultado.is_ok());
    let valor1 = "111, 6, 'Laptop', 3".to_string();
    let valor2 = "112, 4, 'Cargador', 4".to_string();
    let mut valores = Vec::new();
    valores.push(valor1);
    valores.push(valor2);
    let resultado_esperado = Insert::new("ordenes", "id, id_cliente, producto, cantidad", valores);

    assert_eq!(resultado.unwrap(), resultado_esperado);
}

// Se verifica que se parseen correctamente los campos de la query de select
#[test]
fn test_select_parsear_query_funciona_correctamente() {
    let query = "SELECT id, nombre, apellido FROM clientes WHERE id >= 3 AND nombre = 'Carlos' ORDER BY apellido"
        .to_string();
    let posicion_from = query.find("FROM").ok_or("Test failed");
    assert!(Select::obtener_campos(&query, posicion_from.unwrap()).is_ok());
}

// La variante que ademas revisa las columnas pedidas.
#[test]
fn tests_select_test_select_parsear_query_funciona_correctamente() {
    let query = "SELECT id, nombre, apellido FROM clientes WHERE id >= 3 AND nombre = 'Carlos' ORDER BY apellido"
        .to_string();
    let resultado = Select::select_parsear_query(&query);
    assert!(resultado.is_ok());
    let select = resultado.unwrap();
    assert_eq!(
        select.columnas,
        vec!["id".to_string(), "nombre".to_string(), "apellido".to_string()]
    );
}

#[test]
fn test_select_parsea_where_y_order_by_completos() {
    let query = "SELECT * FROM clientes WHERE id >= 3 AND nombre = 'Carlos' OR apellido != 'Cano' ORDER BY apellido DESC, id";
    let select = Select::select_parsear_query(query).unwrap();
    assert_eq!(select.tabla, "clientes");
    assert_eq!(select.columnas, vec!["*".to_string()]);
    let clauses = select.where_clauses.unwrap();
    assert_eq!(clauses.len(), 3);
    assert_eq!(clauses[0].valor1, "id");
    assert_eq!(clauses[0].comparacion, Comparaciones::MayorIgual);
    assert_eq!(clauses[0].valor2, "3");
    assert!(!clauses[0].es_not);
    assert_eq!(clauses[1].valor1, "nombre");
    assert_eq!(clauses[1].comparacion, Comparaciones::Igual);
    assert_eq!(clauses[1].valor2, "'Carlos'");
    assert_eq!(clauses[2].valor1, "apellido");
    assert_eq!(clauses[2].comparacion, Comparaciones::Diferente);
    assert_eq!(clauses[2].valor2, "'Cano'");
    let operadores = select.operacion_logica.unwrap();
    assert_eq!(operadores, vec![LogicalOperators::And, LogicalOperators::Or]);
    let orden = select.order_by.unwrap();
    assert_eq!(orden.len(), 2);
    assert_eq!(orden[0].columna, "apellido");
    assert_eq!(orden[0].orden, Order::Desc);
    assert_eq!(orden[1].columna, "id");
    assert_eq!(orden[1].orden, Order::Asc);
}

#[test]
fn test_select_parsea_not_en_where() {
    let query = "SELECT * FROM clientes WHERE NOT id = 3";
    let select = Select::select_parsear_query(query).unwrap();
    let clauses = select.where_clauses.unwrap();
    assert_eq!(clauses.len(), 1);
    assert!(clauses[0].es_not);
    assert_eq!(clauses[0].valor1, "id");
    assert_eq!(clauses[0].valor2, "3");
}

#[test]
fn test_select_sin_from_es_error_de_sintaxis() {
    let resultado = Select::select_parsear_query("SELECT id, nombre clientes");
    assert_eq!(resultado.unwrap_err().tipo(), ErrorTipo::Syntax);
}

#[test]
fn test_select_comparador_invalido_es_error_de_sintaxis() {
    let resultado = Select::select_parsear_query("SELECT * FROM clientes WHERE id <> 3");
    assert_eq!(resultado.unwrap_err().tipo(), ErrorTipo::Syntax);
}

#[test]
fn test_select_conector_invalido_es_error_de_sintaxis() {
    let resultado = Select::select_parsear_query("SELECT * FROM clientes WHERE id = 3 NAND nombre = 'Ana'");
    assert_eq!(resultado.unwrap_err().tipo(), ErrorTipo::Syntax);
}

#[test]
fn test_update_parsear_query_guarda_set_y_where() {
    let query = "UPDATE clientes SET nombre = 'Pedro', apellido = 'Cano' WHERE id = 2;";
    let update = Update::update_parsear_query(query).unwrap();
    assert_eq!(update.tabla, "clientes");
    assert_eq!(update.set, "nombre = 'Pedro', apellido = 'Cano'");
    let clauses = update.where_clauses.unwrap();
    assert_eq!(clauses.len(), 1);
    assert_eq!(clauses[0].valor1, "id");
    assert_eq!(clauses[0].comparacion, Comparaciones::Igual);
    assert_eq!(clauses[0].valor2, "2");
}

#[test]
fn test_update_sin_where_no_guarda_clausulas() {
    let update = Update::update_parsear_query("UPDATE clientes SET nombre = 'Pedro'").unwrap();
    assert_eq!(update.set, "nombre = 'Pedro'");
    assert!(update.where_clauses.is_none());
    assert!(update.operacion_logica.is_none());
}

#[test]
fn test_update_sin_set_es_error_de_sintaxis() {
    let resultado = Update::update_parsear_query("UPDATE clientes nombre = 'Pedro'");
    assert_eq!(resultado.unwrap_err().tipo(), ErrorTipo::Syntax);
}

#[test]
fn test_delete_parsea_tabla_y_where() {
    let consulta = analisar_query("DELETE FROM clientes WHERE id > 1;").unwrap();
    match consulta {
        Consulta::Delete(delete) => {
            assert_eq!(delete.tabla, "clientes");
            let clauses = delete.where_clauses.unwrap();
            assert_eq!(clauses.len(), 1);
            assert_eq!(clauses[0].valor1, "id");
            assert_eq!(clauses[0].comparacion, Comparaciones::Mayor);
            assert_eq!(clauses[0].valor2, "1");
        },
        _ => panic!("se esperaba una consulta DELETE"),
    }
}

// Scenario E, parser side: a DELETE without WHERE is rejected as Syntax.
#[test]
fn test_delete_sin_where_es_error_de_sintaxis() {
    let resultado = analisar_query("DELETE FROM clientes");
    assert_eq!(resultado.unwrap_err().tipo(), ErrorTipo::Syntax);
}

#[test]
fn test_identificar_tipo_reconoce_las_cuatro_queries() {
    assert_eq!(identificar_tipo("SELECT * FROM t"), QueryType::Select);
    assert_eq!(identificar_tipo("INSERT INTO t (a) VALUES (1)"), QueryType::Insert);
    assert_eq!(identificar_tipo("UPDATE t SET a = 1"), QueryType::Update);
    assert_eq!(identificar_tipo("DELETE FROM t WHERE a = 1"), QueryType::Delete);
    assert_eq!(identificar_tipo("DROP TABLE t"), QueryType::Desconocido);
}

#[test]
fn test_query_desconocida_es_error_de_sintaxis() {
    let resultado = analisar_query("DROP TABLE clientes");
    let error = resultado.unwrap_err();
    assert_eq!(error.tipo(), ErrorTipo::Syntax);
    assert!(error.mensaje().starts_with("Invalid Syntax: "));
}

#[test]
fn test_insert_sin_parentesis_es_error_de_sintaxis() {
    let resultado = Insert::insert_parsear_query("INSERT INTO clientes id VALUES (1)");
    assert_eq!(resultado.unwrap_err().tipo(), ErrorTipo::Syntax);
}

#[test]
fn test_insert_corta_los_grupos_en_punto_y_coma() {
    let valores = Insert::separar_insert_clauses("(1, 'Ana'), (2, 'Beto'); (3, 'Caro')");
    assert_eq!(valores, vec!["1, 'Ana'".to_string(), "2, 'Beto'".to_string()]);
}

#[test]
fn test_delete_sin_prefijo_es_error_de_sintaxis() {
    let resultado = analisar_query("DELETEFROM clientes WHERE id = 1");
    assert_eq!(resultado.unwrap_err().tipo(), ErrorTipo::Syntax);
}

#[test]
fn test_delete_new_guarda_los_campos() {
    let consulta = Delete::new("clientes", None, None);
    assert_eq!(consulta.tabla, "clientes");
    assert!(consulta.where_clauses.is_none());
    assert!(consulta.operacion_logica.is_none());
}
