use mill::naming::{to_pascal_case, to_snake_case};

#[test]
fn snake_case_of_service_names() {
    assert_eq!(to_snake_case("Calculator"), "calculator");
    assert_eq!(to_snake_case("MathService"), "math_service");
    assert_eq!(to_snake_case("KVStore"), "k_v_store");
    assert_eq!(to_snake_case("already_snake"), "already_snake");
    assert_eq!(to_snake_case(""), "");
}

#[test]
fn pascal_case_of_method_names() {
    assert_eq!(to_pascal_case("add"), "Add");
    assert_eq!(to_pascal_case("get_value"), "GetValue");
    assert_eq!(to_pascal_case("a__b"), "AB");
    assert_eq!(to_pascal_case("_x"), "X");
    assert_eq!(to_pascal_case("ß"), "SS");
}
