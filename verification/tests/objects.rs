use mazegame::object::{InvalidObject, Object};

const ALL: [Object; 9] = [
    Object::Coin,
    Object::Key,
    Object::ToyCar,
    Object::SquaresAndTriangles,
    Object::IceCream,
    Object::Tomato,
    Object::Eggplant,
    Object::Banana,
    Object::Carrot,
];

#[test]
fn object_food() {
    let foods: Vec<Object> = ALL.iter().copied().filter(|o| o.is_food()).collect();
    assert_eq!(
        foods,
        vec![Object::IceCream, Object::Tomato, Object::Eggplant, Object::Banana, Object::Carrot]
    );
}

#[test]
fn object_consumable_is_food_or_coin() {
    for o in ALL {
        assert_eq!(o.is_consumable(), o.is_food() || o == Object::Coin);
    }
    assert!(!Object::Key.is_consumable());
    assert!(!Object::ToyCar.is_consumable());
}

#[test]
fn object_only_ice_cream_fattens() {
    for o in ALL {
        assert_eq!(o.is_fattening(), o == Object::IceCream);
    }
}

#[test]
fn object_names() {
    assert_eq!(Object::Coin.name(), "A COIN");
    assert_eq!(Object::IceCream.name(), "SOME ICE CREAM");
    assert_eq!(Object::Key.name(), "A KEY");
    assert_eq!(Object::ToyCar.name(), "A TOY CAR");
    assert_eq!(Object::SquaresAndTriangles.name(), "SOME SQUARES AND TRIANGLES");
    assert_eq!(Object::Tomato.name(), "A TOMATO");
    assert_eq!(Object::Eggplant.name(), "AN EGGPLANT");
    assert_eq!(Object::Banana.name(), "A BANANA");
    assert_eq!(Object::Carrot.name(), "A CARROT");
}

#[test]
fn object_from_char() {
    assert_eq!(Object::from_char('K'), Ok(Object::Key));
    assert_eq!(Object::from_char('T'), Ok(Object::ToyCar));
    assert_eq!(Object::from_char('I'), Ok(Object::IceCream));
    assert_eq!(Object::from_char('C'), Ok(Object::Coin));
    assert_eq!(Object::from_char('S'), Ok(Object::SquaresAndTriangles));
    assert_eq!(Object::from_char('c'), Ok(Object::Carrot));
    assert_eq!(Object::from_char('t'), Ok(Object::Tomato));
    assert_eq!(Object::from_char('e'), Ok(Object::Eggplant));
    assert_eq!(Object::from_char('b'), Ok(Object::Banana));
}

#[test]
fn object_from_bad_char() {
    assert_eq!(Object::from_char('k'), Err(InvalidObject { c: 'k' }));
    assert_eq!(Object::from_char(' '), Err(InvalidObject { c: ' ' }));
    assert_eq!(Object::from_char('#'), Err(InvalidObject { c: '#' }));
}
