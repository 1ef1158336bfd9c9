use jawk::lexer::Token;
use jawk::parser::{token_type, token_type_name, TokenType};
use std::rc::Rc;

use jawk::awk_str::AwkStr;
use jawk::global_scalars::SymbolMapping;
use jawk::hacky_alloc::{HackyAlloc, MapKey, StringTracker, POOL_LIMIT};
use jawk::optional_usize::OptUsize;
use jawk::symbolizer::Symbolizer;
use jawk::tag::Tag;
use jawk::types::{Arg, ArgT, AwkT, ScalarType};

#[test]
fn test_opt_usize_none() {
    let u = OptUsize::none();
    assert_eq!(u.get(), None)
}

#[test]
fn test_opt_usize_some() {
    let u = OptUsize::some(0);
    assert_eq!(u.get(), Some(0))
}

#[test]
fn test_opt_usize_some_large() {
    let u = OptUsize::some(1 << 31);
    assert_eq!(u.get(), Some(1 << 31))
}

#[test]
fn test_opt_usize_some_bits() {
    let u = OptUsize::some(0b1111000011110000);
    assert_eq!(u.get(), Some(0b1111000011110000))
}

#[test]
fn opt_usize_keeps_the_largest_value_that_fits() {
    assert_eq!(OptUsize::some(usize::MAX / 2).get(), Some(usize::MAX / 2));
    assert_eq!(OptUsize::some(usize::MAX / 2 + 1).get(), Some(0));
    assert_eq!(OptUsize::some(usize::MAX).get(), Some(usize::MAX / 2));
}

#[test]
fn test() {
    let mut symbolizer = Symbolizer::new();
    {
        let abc1 = String::from("abc");
        let abc2 = String::from("abc");
        let other = String::from("other");
        let sym1 = symbolizer.get_from_string(abc1);
        let sym2 = symbolizer.get_from_string(abc2);
        let sym_other = symbolizer.get_from_string(other);
        assert_eq!(sym1, sym2);
        assert_ne!(sym_other, sym1);
        assert_ne!(sym1, sym_other);
    };
    let a = String::from("yyz");
    let aa = symbolizer.get_from_string(a);
    {
        let a2 = String::from("yyz");
        let aaa = symbolizer.get_from_string(a2);
        assert_eq!(aa, aaa);
    }
}

#[test]
fn symbols_are_numbered_in_order_and_keep_their_names() {
    let mut symbolizer = Symbolizer::new();
    let names: Vec<String> = (0..40).map(|i| format!("v{}", i)).collect();
    let first: Vec<_> = names.iter().map(|n| symbolizer.get(n)).collect();
    assert_eq!(symbolizer.len(), 40);
    for (i, s) in first.iter().enumerate() {
        assert_eq!(s.id_value(), i);
        assert_eq!(s.to_str(), names[i]);
        assert_eq!(s.as_bytes(), names[i].as_bytes());
    }
    // Names that left the recent cache are still found under their id.
    let again = symbolizer.get("v0");
    assert_eq!(again, first[0]);
    assert!(again.same(&first[0]));
    assert!(!again.same(&first[1]));
    assert_eq!(symbolizer.len(), 40);
    let c = again.copy();
    assert_eq!(c.id_value(), 0);
}

#[test]
fn symbol_mapping_numbers_each_symbol_once() {
    let mut symbolizer = Symbolizer::new();
    let a = symbolizer.get("a");
    let b = symbolizer.get("b");
    let c = symbolizer.get("c");
    let mut m = SymbolMapping::new();
    assert_eq!(m.len(), 0);
    m.insert(&b);
    m.insert(&a);
    m.insert(&b);
    assert_eq!(m.len(), 2);
    assert_eq!(m.get(&b), Some(&0));
    assert_eq!(m.get(&a), Some(&1));
    assert_eq!(m.get(&c), None);
    assert!(m.contains_key(&a));
    assert!(!m.contains_key(&c));
    assert_eq!(m.mapping().len(), 2);
    let all = m.all_symbols();
    assert_eq!(all.len(), 2);
    assert_eq!(all[0], b);
    assert_eq!(all[1], a);
}

#[test]
fn scalar_type_bits() {
    assert_eq!(ScalarType::String.bits() | ScalarType::Float.bits(), ScalarType::Variable.bits());
    assert_eq!(ScalarType::String.bits(), 1);
    assert_eq!(ScalarType::Float.bits(), 2);
    assert_eq!(ScalarType::from_bits(3), Some(ScalarType::Variable));
    assert_eq!(ScalarType::from_bits(0), None);
    assert_eq!(ScalarType::from_bits(4), None);
    assert_eq!(ScalarType::Float.into_awk_t(), AwkT::Scalar(ScalarType::Float));
}

#[test]
fn args() {
    let mut symbolizer = Symbolizer::new();
    let x = symbolizer.get("x");
    let a = Arg::new(x.clone(), ArgT::Unknown);
    assert_eq!(a.typ, ArgT::Unknown);
    assert!(!a.builtin_optional);
    assert!(Arg::new_optional(x.clone(), ArgT::Scalar).builtin_optional);
    assert_eq!(Arg::new_scl(x.clone()).typ, ArgT::Scalar);
    assert_eq!(Arg::new_arr(x.clone()).typ, ArgT::Array);
    assert_eq!(Arg::new_arr(x).name, a.name);
    assert_eq!(ArgT::Scalar.letter(), "s");
    assert_eq!(ArgT::Array.letter(), "a");
    assert_eq!(ArgT::Unknown.letter(), "u");
}

#[test]
fn tags() {
    assert!(!Tag::FloatTag.has_ptr());
    assert!(Tag::StringTag.has_ptr());
    assert!(Tag::StrnumTag.has_ptr());
    assert_eq!(Tag::StrnumTag.name(), "strnum");
}

#[test]
fn pool_reuses_strings_nothing_else_holds() {
    let mut pool = HackyAlloc::new();
    assert!(pool.take().is_none());
    let s = pool.alloc_awkstr(b"hello");
    assert_eq!(s.bytes(), b"hello");
    pool.drop(s);
    let t = pool.alloc_awkstr(b"hi");
    assert_eq!(t.bytes(), b"hi");
    assert!(pool.take().is_none());
    pool.drop(t);
    assert_eq!(pool.take().unwrap().bytes(), b"hi");
}

#[test]
fn pool_leaves_shared_strings_alone() {
    let mut pool = HackyAlloc::new();
    let s = Rc::new(AwkStr::new(b"shared".to_vec()));
    let other = Rc::clone(&s);
    pool.drop(s);
    assert!(pool.take().is_none());
    let weak = Rc::downgrade(&other);
    pool.drop(other);
    assert!(pool.take().is_none());
    drop(weak);
}

#[test]
fn pool_is_bounded() {
    let mut pool = HackyAlloc::new();
    for _ in 0..POOL_LIMIT + 5 {
        pool.recycle(Rc::new(AwkStr::new(vec![])), 1, 0);
    }
    let mut n = 0;
    while pool.take().is_some() {
        n += 1;
    }
    assert_eq!(n, POOL_LIMIT);
    pool.recycle(Rc::new(AwkStr::new(vec![])), 2, 0);
    pool.recycle(Rc::new(AwkStr::new(vec![])), 1, 1);
    assert!(pool.take().is_none());
}

#[test]
fn map_key_and_tracker() {
    let k = MapKey::new(Rc::new(AwkStr::from_str("k")));
    assert!(k == MapKey::new(Rc::new(AwkStr::from_str("k"))));
    let mut t = StringTracker::new();
    t.string_out();
    t.string_out();
    t.string_in();
    assert_eq!(t.string_out, 2);
    assert_eq!(t.strings_in, 1);
}

#[test]
fn symbols_of_two_symbolizers_with_different_names_differ() {
    let mut z1 = Symbolizer::new();
    let mut z2 = Symbolizer::new();
    let a = z1.get("a");
    let b = z2.get("b");
    assert_eq!(a.id_value(), b.id_value());
    assert_ne!(a, b);
    assert!(!a.same(&b));
    assert_ne!(z2.get("a"), a);
}

#[test]
fn inserting_twice_is_inserting_once() {
    let mut z = Symbolizer::new();
    let a = z.get("a");
    let mut m = SymbolMapping::new();
    m.insert(&a);
    m.insert(&a);
    assert_eq!(m.len(), 1);
    assert_eq!(m.get(&a), Some(&0));
}

#[test]
fn token_kinds_and_names() {
    assert_eq!(token_type(&Token::LeftBrace), TokenType::LeftBrace);
    assert_eq!(token_type(&Token::Number("1".to_string())), TokenType::Number);
    assert_eq!(token_type_name(TokenType::RightParen), ")");
    assert_eq!(token_type_name(TokenType::EOF), "end of file");
}

#[test]
fn symbol_of_another_symbolizer_is_not_a_key() {
    let mut z1 = Symbolizer::new();
    let mut z2 = Symbolizer::new();
    let a = z1.get("a");
    let b = z2.get("b");
    let a2 = z2.get("a");
    let mut m = SymbolMapping::new();
    m.insert(&a);
    assert!(m.contains_key(&a));
    assert!(!m.contains_key(&b));
    assert_eq!(m.get(&b), None);
    m.insert(&b);
    assert_eq!(m.len(), 2);
    assert_eq!(m.get(&b), Some(&1));
    let all = m.all_symbols();
    assert_eq!(all[0], a);
    assert_eq!(all[1], b);
    assert_ne!(a2, a);
    let pairs = m.mapping();
    assert_eq!(pairs[1].1, 1);
    assert_eq!(pairs[1].0, b);
}

#[test]
fn equal_names_from_two_symbolizers_are_not_equal_symbols() {
    let mut z1 = Symbolizer::new();
    let mut z2 = Symbolizer::new();
    let a1 = z1.get("a");
    let a2 = z2.get("a");
    assert!(a1.same(&a2));
    assert_ne!(a1, a2);
    assert_eq!(a1, z1.get("a"));
}
