#[derive(Debug)]
enum TestTuple {
    TwoTuple(usize, usize),
    TestStruct { test_field: usize },
}

struct Anon {
    test_field: usize,
}

fn two_tuple_values(value: TestTuple) -> (usize, usize) {
    match value {
        TestTuple::TwoTuple(val1, val2) => (val1, val2),
        _ => panic!("Invalid enum variant"),
    }
}

fn test_struct_fields(value: TestTuple) -> Anon {
    match value {
        TestTuple::TestStruct { test_field } => Anon { test_field },
        _ => panic!("Invalid enum variant"),
    }
}

#[test]
fn it_works() {
    assert_eq!(2 + 2, 4);
}

#[test]
fn benchmark_as_variant_macro() {
    let test_enum = TestTuple::TwoTuple(1, 2);
    let test_struct = TestTuple::TestStruct { test_field: 1 };
    println!("{}", two_tuple_values(test_enum).1);
    println!("{}", test_struct_fields(test_struct).test_field);
}

#[test]
fn macros_as_variant_macro() {
    let test_enum = TestTuple::TwoTuple(1, 2);
    let test_struct = TestTuple::TestStruct { test_field: 1 };
    let pair = two_tuple_values(test_enum);
    println!("{}", pair.1);
    let fields = test_struct_fields(test_struct);
    println!("{}", fields.test_field);
    assert_eq!(pair, (1, 2));
    assert_eq!(fields.test_field, 1);
}
