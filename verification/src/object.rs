//! Things the hero can pick up, eat or carry.

use vstd::prelude::*;

verus! {

/// A pickup lying on a tile.
#[derive(PartialEq, Eq, Structural, Copy, Clone, Debug)]
pub enum Object {
    Coin,
    Key,
    ToyCar,
    SquaresAndTriangles,
    IceCream,
    Tomato,
    Eggplant,
    Banana,
    Carrot,
}

/// A character that stands for no object.
#[derive(PartialEq, Eq, Structural, Copy, Clone, Debug)]
pub struct InvalidObject {
    pub c: char,
}

impl Object {
    /// Foods are eaten on the spot.
    pub open spec fn spec_is_food(self) -> bool {
        self is IceCream || self is Carrot || self is Tomato || self is Eggplant || self is Banana
    }

    /// Consumables never occupy the hero's hands: the foods and the coin.
    pub open spec fn spec_is_consumable(self) -> bool {
        self.spec_is_food() || self is Coin
    }

    /// Only ice cream slows the hero down.
    pub open spec fn spec_is_fattening(self) -> bool {
        self is IceCream
    }

    /// The name shown to the player, with its article.
    pub open spec fn spec_name(self) -> Seq<char> {
        match self {
            Object::Coin => "A COIN"@,
            Object::IceCream => "SOME ICE CREAM"@,
            Object::Key => "A KEY"@,
            Object::ToyCar => "A TOY CAR"@,
            Object::SquaresAndTriangles => "SOME SQUARES AND TRIANGLES"@,
            Object::Tomato => "A TOMATO"@,
            Object::Eggplant => "AN EGGPLANT"@,
            Object::Banana => "A BANANA"@,
            Object::Carrot => "A CARROT"@,
        }
    }

    /// The object a character of a room description stands for, if any.
    pub open spec fn spec_from_char(c: char) -> Option<Object> {
        if c == 'K' {
            Some(Object::Key)
        } else if c == 'T' {
            Some(Object::ToyCar)
        } else if c == 'I' {
            Some(Object::IceCream)
        } else if c == 'C' {
            Some(Object::Coin)
        } else if c == 'S' {
            Some(Object::SquaresAndTriangles)
        } else if c == 'c' {
            Some(Object::Carrot)
        } else if c == 't' {
            Some(Object::Tomato)
        } else if c == 'e' {
            Some(Object::Eggplant)
        } else if c == 'b' {
            Some(Object::Banana)
        } else {
            None
        }
    }

    #[verifier::when_used_as_spec(spec_is_food)]
    pub fn is_food(self) -> (r: bool)
        ensures
            r == self.spec_is_food(),
    {
        match self {
            Object::IceCream
            | Object::Carrot
            | Object::Tomato
            | Object::Eggplant
            | Object::Banana => true,
            _ => false,
        }
    }

    #[verifier::when_used_as_spec(spec_is_consumable)]
    pub fn is_consumable(self) -> (r: bool)
        ensures
            r == self.spec_is_consumable(),
    {
        match self {
            Object::IceCream
            | Object::Carrot
            | Object::Tomato
            | Object::Eggplant
            | Object::Banana
            | Object::Coin => true,
            _ => false,
        }
    }

    #[verifier::when_used_as_spec(spec_is_fattening)]
    pub fn is_fattening(self) -> (r: bool)
        ensures
            r == self.spec_is_fattening(),
    {
        match self {
            Object::IceCream => true,
            _ => false,
        }
    }

    pub fn name(self) -> (r: &'static str)
        ensures
            r@ == self.spec_name(),
    {
        match self {
            Object::Coin => "A COIN",
            Object::IceCream => "SOME ICE CREAM",
            Object::Key => "A KEY",
            Object::ToyCar => "A TOY CAR",
            Object::SquaresAndTriangles => "SOME SQUARES AND TRIANGLES",
            Object::Tomato => "A TOMATO",
            Object::Eggplant => "AN EGGPLANT",
            Object::Banana => "A BANANA",
            Object::Carrot => "A CARROT",
        }
    }

    /// Reads an object from its character in a room description.
    pub fn from_char(c: char) -> (r: Result<Object, InvalidObject>)
        ensures
            r == match Object::spec_from_char(c) {
                Some(o) => Ok::<Object, InvalidObject>(o),
                None => Err::<Object, InvalidObject>(InvalidObject { c }),
            },
    {
        let obj = match c {
            'K' => Object::Key,
            'T' => Object::ToyCar,
            'I' => Object::IceCream,
            'C' => Object::Coin,
            'S' => Object::SquaresAndTriangles,
            'c' => Object::Carrot,
            't' => Object::Tomato,
            'e' => Object::Eggplant,
            'b' => Object::Banana,
            _ => {
                return Err(InvalidObject { c });
            },
        };
        Ok(obj)
    }
}

} // verus!
