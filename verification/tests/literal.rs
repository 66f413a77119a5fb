use sixu::error::RuntimeError;
use sixu::format::Literal;

#[test]
fn literal_mutable_accessors_change_the_value() {
    let mut s = Literal::String("a".to_string());
    s.as_string_mut().unwrap().push('b');
    assert!(matches!(&s, Literal::String(x) if x == "ab"));
    assert_eq!(s.as_integer_mut().err(), Some(RuntimeError::NotAInteger));

    let mut i = Literal::Integer(4);
    *i.as_integer_mut().unwrap() += 1;
    assert_eq!(i.as_integer().copied(), Ok(5));
    assert_eq!(i.as_string_mut().err(), Some(RuntimeError::NotAString));

    let mut f = Literal::Float(1.0f64.to_bits());
    *f.as_float_mut().unwrap() = 2.5f64.to_bits();
    assert_eq!(f.as_float().copied(), Ok(2.5f64.to_bits()));
    assert_eq!(f.as_boolean_mut().err(), Some(RuntimeError::NotABoolean));

    let mut b = Literal::Boolean(false);
    *b.as_boolean_mut().unwrap() = true;
    assert_eq!(b.as_boolean().copied(), Ok(true));
    assert_eq!(b.as_float_mut().err(), Some(RuntimeError::NotAFloat));

    let mut a = Literal::Array(vec![]);
    a.as_array_mut().unwrap().push(Literal::Null);
    assert_eq!(a.as_array().unwrap().len(), 1);
    assert_eq!(a.as_object_mut().err(), Some(RuntimeError::NotAObject));

    let mut o = Literal::Object(vec![("k".to_string(), Literal::Null)]);
    o.as_object_mut().unwrap().clear();
    assert!(o.as_object().unwrap().is_empty());
    assert_eq!(o.as_array_mut().err(), Some(RuntimeError::NotAArray));
}
