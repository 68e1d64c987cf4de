use stdt::utils::type_of::type_of_short;

#[test]
fn primitive_types() {
    assert_eq!(type_of_short("i32"), "i32");
    assert_eq!(type_of_short("f64"), "f64");
    assert_eq!(type_of_short("bool"), "bool");
}

#[test]
fn references_and_slices() {
    assert_eq!(type_of_short("&str"), "&str");
    assert_eq!(type_of_short("&[u8]"), "&[u8]");
}

#[test]
fn std_and_alloc_containers() {
    assert_eq!(type_of_short("alloc::vec::Vec<u8>"), "Vec<u8>");
    assert_eq!(type_of_short("(i32, bool)"), "(i32, bool)");
}

#[test]
fn user_defined_types() {
    assert_eq!(type_of_short("tests::inner::Foo"), "Foo");
    assert_eq!(type_of_short("tests::inner::Bar"), "Bar");
}

#[test]
fn generics() {
    assert_eq!(type_of_short("tests::generics::Wrapper<u32>"), "Wrapper<u32>");
}

#[test]
fn short_name_takes_what_follows_the_last_separator() {
    assert_eq!(type_of_short("alloc::vec::Vec<i32>"), "Vec<i32>");
    assert_eq!(type_of_short(""), "");
    assert_eq!(type_of_short("a::"), "");
    assert_eq!(type_of_short("::"), "");
    assert_eq!(type_of_short(":"), ":");
    assert_eq!(type_of_short("a:::b"), "b");
    assert_eq!(type_of_short("a::b:"), "b:");
    assert_eq!(type_of_short("a:b"), "a:b");
    assert_eq!(
        type_of_short("alloc::vec::Vec<alloc::string::String>"),
        "String>"
    );
}
