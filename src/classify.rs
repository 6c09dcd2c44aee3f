use vstd::prelude::*;

verus! {

/// The kind of a value, decided by its first significant character.
#[derive(Debug, Clone, Copy, PartialEq, Eq, Structural)]
pub enum JsonType {
    Primitive,
    String,
    Object,
    Array,
}

/// The kind that a value opening with `c` has.
pub open spec fn kind_of(c: char) -> JsonType {
    if c == '[' {
        JsonType::Array
    } else if c == '{' {
        JsonType::Object
    } else if c == '"' {
        JsonType::String
    } else {
        JsonType::Primitive
    }
}

/// Whether `c`, read once the nesting count is back to zero, closes a value of kind `k`.
pub open spec fn ends_kind(k: JsonType, c: char) -> bool {
    match k {
        JsonType::Primitive => c == ',' || c == '}' || c == ']',
        JsonType::String => c == ',' || c == '"',
        JsonType::Object => c == ',' || c == '}',
        JsonType::Array => c == ',' || c == ']',
    }
}

/// Whether `c`, after the stored character `prev`, opens one more level of kind `k`.
pub open spec fn opens_level(k: JsonType, prev: char, c: char, count: int) -> bool {
    match k {
        JsonType::Primitive => false,
        JsonType::String => prev != '\\' && c == '"' && count % 2 == 0,
        JsonType::Object => c == '{',
        JsonType::Array => c == '[',
    }
}

/// Whether `c`, after the stored character `prev`, closes one level of kind `k`.
pub open spec fn closes_level(k: JsonType, prev: char, c: char, count: int) -> bool {
    match k {
        JsonType::Primitive => false,
        JsonType::String => prev != '\\' && c == '"' && count % 2 == 1,
        JsonType::Object => c == '}',
        JsonType::Array => c == ']',
    }
}

impl JsonType {
    pub fn type_for_delimiter(dlm: char) -> (r: JsonType)
        ensures
            r == kind_of(dlm),
    {
        if dlm == '[' {
            JsonType::Array
        } else if dlm == '{' {
            JsonType::Object
        } else if dlm == '"' {
            JsonType::String
        } else {
            JsonType::Primitive
        }
    }

    pub fn character_ends_type(&self, c: char) -> (r: bool)
        ensures
            r == ends_kind(*self, c),
    {
        match self {
            JsonType::Primitive => c == ',' || c == '}' || c == ']',
            JsonType::String => c == ',' || c == '"',
            JsonType::Object => c == ',' || c == '}',
            JsonType::Array => c == ',' || c == ']',
        }
    }

    pub fn should_increment(&self, prev: char, c: char, count: usize) -> (r: bool)
        ensures
            r == opens_level(*self, prev, c, count as int),
    {
        match self {
            JsonType::Primitive => false,
            JsonType::String => prev != '\\' && c == '"' && count % 2 == 0,
            JsonType::Object => c == '{',
            JsonType::Array => c == '[',
        }
    }

    pub fn should_decrement(&self, prev: char, c: char, count: usize) -> (r: bool)
        ensures
            r == closes_level(*self, prev, c, count as int),
    {
        match self {
            JsonType::Primitive => false,
            JsonType::String => prev != '\\' && c == '"' && count % 2 == 1,
            JsonType::Object => c == '}',
            JsonType::Array => c == ']',
        }
    }
}

} // verus!
