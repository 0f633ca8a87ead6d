use ai_auditor::validator::validate_code;

#[test]
fn accepts_a_public_function() {
    let r = validate_code("pub fn add(a: i32, b: i32) -> i32 { a + b }");
    assert_eq!(r, (true, None));
}

#[test]
fn reports_unbalanced_snippet() {
    let r = validate_code("fn broken( { ");
    assert_eq!(
        r,
        (
            false,
            Some(
                "Llaves desbalanceadas: 1 abiertas, 0 cerradas; \
                 Paréntesis desbalanceados: 1 abiertos, 0 cerrados; \
                 Posible falta de función main() para un programa ejecutable"
                    .to_string()
            )
        )
    );
}

#[test]
fn reports_brackets_with_multi_digit_counts() {
    let code = "pub fn f() { let a = [[[[[[[[[[[[1]; 1]; 1]; 1]; 1]; 1]; 1]; 1]; 1]; 1]; 1]; }";
    let r = validate_code(code);
    assert_eq!(
        r,
        (false, Some("Corchetes desbalanceados: 12 abiertos, 11 cerrados".to_string()))
    );
}

#[test]
fn reports_dangerous_patterns_in_order() {
    let code = "fn main() { std::process::Command::new(\"x\"); std::fs::remove_file(\"y\"); unsafe { } }";
    let r = validate_code(code);
    assert_eq!(
        r,
        (
            false,
            Some(
                "Uso de Command puede ser peligroso; \
                 Operación de eliminación de archivos detectada; \
                 Bloque unsafe detectado - requiere revisión manual"
                    .to_string()
            )
        )
    );
}

#[test]
fn reports_missing_semicolon_and_empty_body() {
    let r = validate_code("fn main() {} let x = 1");
    assert_eq!(
        r,
        (
            false,
            Some(
                "Posible falta de punto y coma en declaración let; \
                 Función con cuerpo vacío detectada"
                    .to_string()
            )
        )
    );
}

#[test]
fn impl_block_needs_no_main() {
    let r = validate_code("impl S { fn get(&self) -> u8 { 1 } }");
    assert_eq!(r, (true, None));
}

#[test]
fn empty_snippet_has_no_findings() {
    assert_eq!(validate_code(""), (true, None));
}
