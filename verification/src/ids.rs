//! Action identifiers: plain ids, source tags, and qualified `source/id`
//! pairs, with the validation rules they must satisfy.

use vstd::prelude::*;

use crate::strutil::concat2;
use crate::strutil::concat3;
use crate::strutil::find_char;

verus! {

pub open spec fn is_lower(c: char) -> bool {
    'a' <= c && c <= 'z'
}

pub open spec fn is_digit_char(c: char) -> bool {
    '0' <= c && c <= '9'
}

/// A character that may appear in an action id: lowercase ASCII, a digit,
/// or an underscore.
pub open spec fn is_id_char(c: char) -> bool {
    is_lower(c) || is_digit_char(c) || c == '_'
}

/// Position `k` splits `s` into a valid qualified id: a `/` there, id
/// characters everywhere else, and a lowercase letter on both sides.
pub open spec fn valid_id_split(s: Seq<char>, k: int) -> bool {
    &&& 0 <= k < s.len()
    &&& s[k] == '/'
    &&& (forall|j: int| 0 <= j < s.len() && j != k ==> is_id_char(s[j]))
    &&& (exists|j: int| 0 <= j < k && is_lower(s[j]))
    &&& (exists|j: int| k < j < s.len() && is_lower(s[j]))
}

/// A valid qualified id `first/second`: exactly one `/`, everything else an
/// id character, and a lowercase letter on both sides of the `/`.
pub open spec fn spec_valid_id(s: Seq<char>) -> bool {
    exists|k: int| valid_id_split(s, k)
}

/// Checks a qualified id of the form `first/second`: one `/` separating two
/// parts of lowercase letters, digits and underscores, each part holding at
/// least one lowercase letter.
pub fn is_valid_id(id: &str) -> (r: bool)
    ensures
        r == spec_valid_id(id@),
{
    let n = id.unicode_len();
    let mut first_part_valid = false;
    let mut had_separator = false;
    let mut second_part_valid = false;
    let ghost mut sep: int = 0;

    let mut i: usize = 0;
    while i < n
        invariant
            n == id@.len(),
            i <= n,
            !had_separator ==> forall|j: int| 0 <= j < i ==> is_id_char(id@[j]),
            !had_separator ==> first_part_valid == exists|j: int| 0 <= j < i && is_lower(id@[j]),
            !had_separator ==> !second_part_valid,
            had_separator ==> 0 <= sep < i,
            had_separator ==> id@[sep] == '/',
            had_separator ==> forall|j: int| 0 <= j < i && j != sep ==> is_id_char(id@[j]),
            had_separator ==> exists|j: int| 0 <= j < sep && is_lower(id@[j]),
            had_separator ==> second_part_valid == exists|j: int|
                sep < j < i && is_lower(id@[j]),
        decreases n - i,
    {
        let c = id.get_char(i);
        if c == '/' {
            if had_separator || !first_part_valid {
                proof {
                    assert forall|k: int| !valid_id_split(id@, k) by {
                        if 0 <= k < id@.len() && id@[k] == '/' {
                            if had_separator {
                                // Two slashes: whichever is not the candidate
                                // is not an id character.
                                if k == sep {
                                    assert(!is_id_char(id@[i as int]));
                                } else {
                                    assert(!is_id_char(id@[sep]));
                                }
                            } else {
                                // No lowercase letter stands before this
                                // first slash.
                                if k == i as int {
                                    assert(forall|j: int| 0 <= j < k ==> !is_lower(id@[j]));
                                } else if k > i as int {
                                    assert(!is_id_char(id@[i as int]));
                                } else {
                                    assert(is_id_char(id@[k]));
                                }
                            }
                        }
                    }
                }
                return false;
            }
            had_separator = true;
            proof {
                sep = i as int;
            }
        } else if c == '_' || ('0' <= c && c <= '9') {
            proof {
                assert(is_id_char(id@[i as int]));
            }
        } else if 'a' <= c && c <= 'z' {
            proof {
                assert(is_lower(id@[i as int]));
            }
            if had_separator {
                second_part_valid = true;
            } else {
                first_part_valid = true;
            }
        } else {
            proof {
                assert(!is_id_char(id@[i as int]) && id@[i as int] != '/');
                assert forall|k: int| !valid_id_split(id@, k) by {
                    if 0 <= k < id@.len() && id@[k] == '/' && k != i as int {
                        assert(!is_id_char(id@[i as int]));
                    }
                }
            }
            return false;
        }
        i = i + 1;
    }
    proof {
        if second_part_valid {
            assert(valid_id_split(id@, sep));
        } else {
            assert forall|k: int| !valid_id_split(id@, k) by {
                if 0 <= k < id@.len() && id@[k] == '/' {
                    if had_separator {
                        if k != sep {
                            assert(!is_id_char(id@[sep]));
                        } else {
                            assert(forall|j: int| sep < j < id@.len() ==> !is_lower(id@[j]));
                        }
                    } else {
                        assert(is_id_char(id@[k]));
                    }
                }
            }
        }
    }
    second_part_valid
}

/// All characters of an action id: lowercase letters, digits, underscores.
/// The empty id is accepted.
pub open spec fn spec_valid_action_id(s: Seq<char>) -> bool {
    forall|j: int| 0 <= j < s.len() ==> is_id_char(s[j])
}

/// All characters of an action source: lowercase letters and digits.
/// The empty source is accepted.
pub open spec fn spec_valid_action_source(s: Seq<char>) -> bool {
    forall|j: int| 0 <= j < s.len() ==> is_lower(s[j]) || is_digit_char(s[j])
}

/// The name of one action, as written in a configuration.
#[derive(Clone, Debug, PartialEq, Eq, Hash)]
pub struct ActionId {
    text: String,
}

impl View for ActionId {
    type V = Seq<char>;

    closed spec fn view(&self) -> Seq<char> {
        self.text@
    }
}

impl ActionId {
    /// Create a new `ActionId`.
    ///
    /// Rejects any input holding a character other than lowercase ASCII
    /// letters, digits and underscores.
    pub fn new(input: String) -> (r: Result<Self, String>)
        ensures
            r is Ok <==> spec_valid_action_id(input@),
            r matches Ok(id) ==> id@ == input@,
            r matches Err(e) ==> e@ == input@ + " is not a valid action id"@,
    {
        let n = input.as_str().unicode_len();
        let mut i: usize = 0;
        while i < n
            invariant
                n == input@.len(),
                i <= n,
                forall|j: int| 0 <= j < i ==> is_id_char(input@[j]),
            decreases n - i,
        {
            let u = input.as_str().get_char(i) as u32;
            if !(u == 95 || (48 <= u && u <= 57) || (97 <= u && u <= 122)) {
                return Err(concat2(input.as_str(), " is not a valid action id"));
            }
            i = i + 1;
        }
        Ok(ActionId { text: input })
    }

    /// Create a new `ActionId` from a string slice.
    pub fn new_str(input: &str) -> (r: Result<Self, String>)
        ensures
            r is Ok <==> spec_valid_action_id(input@),
            r matches Ok(id) ==> id@ == input@,
            r matches Err(e) ==> e@ == input@ + " is not a valid action id"@,
    {
        Self::new(input.to_owned())
    }

    pub fn as_str(&self) -> (r: &str)
        ensures
            r@ == self@,
    {
        self.text.as_str()
    }
}

/// The provenance tag of an action: which configuration layer defined it.
#[derive(Clone, Debug, PartialEq, Eq, Hash)]
pub struct ActionSource {
    text: String,
}

impl View for ActionSource {
    type V = Seq<char>;

    closed spec fn view(&self) -> Seq<char> {
        self.text@
    }
}

impl ActionSource {
    /// Create a new `ActionSource`.
    ///
    /// Rejects any input holding a character other than lowercase ASCII
    /// letters and digits.
    pub fn new(input: String) -> (r: Result<Self, String>)
        ensures
            r is Ok <==> spec_valid_action_source(input@),
            r matches Ok(s) ==> s@ == input@,
            r matches Err(e) ==> e@ == input@ + " is not a valid action source"@,
    {
        let n = input.as_str().unicode_len();
        let mut i: usize = 0;
        while i < n
            invariant
                n == input@.len(),
                i <= n,
                forall|j: int| 0 <= j < i ==> is_lower(input@[j]) || is_digit_char(input@[j]),
            decreases n - i,
        {
            let u = input.as_str().get_char(i) as u32;
            if !((48 <= u && u <= 57) || (97 <= u && u <= 122)) {
                return Err(concat2(input.as_str(), " is not a valid action source"));
            }
            i = i + 1;
        }
        Ok(ActionSource { text: input })
    }

    /// Create a new `ActionSource` from a string slice.
    pub fn new_str(input: &str) -> (r: Result<Self, String>)
        ensures
            r is Ok <==> spec_valid_action_source(input@),
            r matches Ok(s) ==> s@ == input@,
            r matches Err(e) ==> e@ == input@ + " is not a valid action source"@,
    {
        Self::new(input.to_owned())
    }

    pub fn as_str(&self) -> (r: &str)
        ensures
            r@ == self@,
    {
        self.text.as_str()
    }
}

/// An action id together with the source that defined it, or alone when it
/// refers to an action of any source.
#[derive(Clone, Debug, PartialEq, Eq, Hash)]
pub struct QualifiedActionId {
    pub source: Option<ActionSource>,
    pub id: ActionId,
}

impl QualifiedActionId {
    /// The qualified id of a configured action. The upstream configuration
    /// only builds actions with valid ids and sources.
    pub fn from_def(action_definition: &crate::actions::ActionDefinition) -> (r: Self)
        requires
            spec_valid_action_id(action_definition.id@),
            spec_valid_action_source(action_definition.source@),
        ensures
            r.id@ == action_definition.id@,
            r.source matches Some(s) && s@ == action_definition.source@,
    {
        let id = match ActionId::new_str(action_definition.id.as_str()) {
            Ok(id) => id,
            Err(_) => {
                proof {
                    assert(false);
                }
                ActionId { text: String::new() }
            },
        };
        let source = match ActionSource::new_str(action_definition.source.as_str()) {
            Ok(source) => source,
            Err(_) => {
                proof {
                    assert(false);
                }
                ActionSource { text: String::new() }
            },
        };
        Self::new_from_source(id, source)
    }

    pub fn new_from_source(id: ActionId, source: ActionSource) -> (r: Self)
        ensures
            r.id@ == id@,
            r.source matches Some(s) && s@ == source@,
    {
        QualifiedActionId { id, source: Some(source) }
    }

    pub fn new(id: ActionId) -> (r: Self)
        ensures
            r.id@ == id@,
            r.source is None,
    {
        QualifiedActionId { id, source: None }
    }

    /// Parse a qualified action id: `source/id` when a `/` is present,
    /// a bare id otherwise. Each part must be valid on its own.
    pub fn parse(input: String) -> (r: Result<Self, String>)
        ensures
            match r {
                Ok(q) => {
                    if exists|k: int| 0 <= k < input@.len() && input@[k] == '/' {
                        let k = choose|k: int|
                            0 <= k < input@.len() && input@[k] == '/' && (forall|j: int|
                                0 <= j < k ==> input@[j] != '/');
                        &&& q.source matches Some(s) && s@ == input@.subrange(0, k)
                        &&& q.id@ == input@.subrange(k + 1, input@.len() as int)
                        &&& spec_valid_action_source(input@.subrange(0, k))
                        &&& spec_valid_action_id(input@.subrange(k + 1, input@.len() as int))
                    } else {
                        &&& q.source is None
                        &&& q.id@ == input@
                        &&& spec_valid_action_id(input@)
                    }
                },
                Err(_) => {
                    if exists|k: int| 0 <= k < input@.len() && input@[k] == '/' {
                        let k = choose|k: int|
                            0 <= k < input@.len() && input@[k] == '/' && (forall|j: int|
                                0 <= j < k ==> input@[j] != '/');
                        !spec_valid_action_source(input@.subrange(0, k))
                            || !spec_valid_action_id(input@.subrange(k + 1, input@.len() as int))
                    } else {
                        !spec_valid_action_id(input@)
                    }
                },
            },
    {
        let text = input.as_str();
        match find_char(text, '/') {
            Some(separator) => {
                let n = text.unicode_len();
                let source_part = text.substring_char(0, separator);
                let id_part = text.substring_char(separator + 1, n);
                let source = ActionSource::new_str(source_part)?;
                let id = ActionId::new_str(id_part)?;
                Ok(Self::new_from_source(id, source))
            },
            None => {
                let id = ActionId::new(input)?;
                Ok(Self::new(id))
            },
        }
    }

    /// Parse a qualified action id from a string slice.
    pub fn parse_str(input: &str) -> (r: Result<Self, String>)
        ensures
            match r {
                Ok(q) => {
                    if exists|k: int| 0 <= k < input@.len() && input@[k] == '/' {
                        let k = choose|k: int|
                            0 <= k < input@.len() && input@[k] == '/' && (forall|j: int|
                                0 <= j < k ==> input@[j] != '/');
                        &&& q.source matches Some(s) && s@ == input@.subrange(0, k)
                        &&& q.id@ == input@.subrange(k + 1, input@.len() as int)
                    } else {
                        &&& q.source is None
                        &&& q.id@ == input@
                    }
                },
                Err(_) => true,
            },
    {
        Self::parse(input.to_owned())
    }

    pub fn unqualified_id(&self) -> (r: &ActionId)
        ensures
            r@ == self.id@,
    {
        &self.id
    }

    /// The textual form: `source/id` when a source is present, the bare id
    /// otherwise.
    pub fn qualified_name(&self) -> (r: String)
        ensures
            match self.source {
                Some(s) => r@ == s@ + "/"@ + self.id@,
                None => r@ == self.id@,
            },
    {
        match &self.source {
            Some(s) => concat3(s.as_str(), "/", self.id.as_str()),
            None => self.id.as_str().to_owned(),
        }
    }
}

} // verus!
