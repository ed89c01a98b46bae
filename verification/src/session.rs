//! Who is logged in, as the session passes it on the command line.
use crate::text::{chars_of, string_from_chars};
use vstd::prelude::*;

verus! {

/// The argument that names the session's user.
pub const USER_ARGUMENT_PREFIX: &'static str = "--session-user=";

/// The user that an argument names, if it is a non-empty user argument.
pub open spec fn named_user(argument: Seq<char>) -> Option<Seq<char>> {
    let prefix = USER_ARGUMENT_PREFIX@;
    if argument.len() > prefix.len() && argument.take(prefix.len() as int) == prefix {
        Some(argument.skip(prefix.len() as int))
    } else {
        None
    }
}

/// The user that the first user argument names.
pub open spec fn first_named_user(arguments: Seq<Seq<char>>) -> Option<Seq<char>>
    decreases arguments.len(),
{
    if arguments.len() == 0 {
        None
    } else {
        match named_user(arguments[0]) {
            Some(user) => Some(user),
            None => first_named_user(arguments.drop_first()),
        }
    }
}

fn user_in_argument(argument: &str) -> (user: Option<String>)
    ensures
        match (user, named_user(argument@)) {
            (Some(user), Some(named)) => user@ == named,
            (None, None) => true,
            _ => false,
        },
{
    proof {
        reveal_strlit("--session-user=");
    }
    let chars = chars_of(argument);
    let prefix = chars_of(USER_ARGUMENT_PREFIX);
    if chars.len() <= prefix.len() {
        return None;
    }
    let mut i: usize = 0;
    while i < prefix.len()
        invariant
            i <= prefix@.len() < chars@.len(),
            prefix@ == USER_ARGUMENT_PREFIX@,
            chars@ == argument@,
            forall|j: int| 0 <= j < i ==> chars@[j] == prefix@[j],
        decreases prefix@.len() - i,
    {
        if chars[i] != prefix[i] {
            assert(chars@.take(prefix@.len() as int)[i as int] != prefix@[i as int]);
            return None;
        }
        i = i + 1;
    }
    assert(chars@.take(prefix@.len() as int) =~= prefix@);
    let rest = crate::text::copy_range(chars.as_slice(), prefix.len(), chars.len());
    Some(string_from_chars(rest.as_slice()))
}

/// The user that the command line names: the first non-empty
/// `--session-user=` argument.
pub fn user_label_from_arguments(arguments: &[String]) -> (user: Option<String>)
    ensures
        match (user, first_named_user(crate::platform::string_views(arguments@))) {
            (Some(user), Some(named)) => user@ == named,
            (None, None) => true,
            _ => false,
        },
{
    let ghost names = crate::platform::string_views(arguments@);
    let mut i: usize = 0;
    assert(names.skip(0) =~= names);
    while i < arguments.len()
        invariant
            i <= arguments@.len(),
            names == crate::platform::string_views(arguments@),
            first_named_user(names) == first_named_user(names.skip(i as int)),
        decreases arguments@.len() - i,
    {
        assert(names.skip(i as int)[0] == arguments@[i as int]@);
        assert(names.skip(i as int).drop_first() =~= names.skip(i + 1));
        if let Some(user) = user_in_argument(arguments[i].as_str()) {
            return Some(user);
        }
        i = i + 1;
    }
    assert(names.skip(i as int) =~= Seq::<Seq<char>>::empty());
    None
}

/// The name shown for the session's user: the one the command line names,
/// or else the one the platform knows.
pub fn current_user_label(arguments: &[String], platform_label: String) -> (label: String)
    ensures
        label@ == match first_named_user(crate::platform::string_views(arguments@)) {
            Some(named) => named,
            None => platform_label@,
        },
{
    match user_label_from_arguments(arguments) {
        Some(user) => user,
        None => platform_label,
    }
}

} // verus!
