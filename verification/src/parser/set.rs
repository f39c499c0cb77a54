//! `set key value [EX seconds] [PX milliseconds] [NX|XX]`

use vstd::prelude::*;

use crate::protocol::{views, KeyType, Lock, Protocol, ProtocolModel, TTL};
use crate::text::{parse_usize, parsed_usize, same_text, to_uppercase, uppercase};

verus! {

/// The expiry that `set` arguments ask for: arguments 3 and 4 (counting
/// the command name as 0) are the unit, `EX` or `PX` in any case, and the
/// amount. Fewer arguments ask for none; another unit, or an amount that is
/// not a number, is a syntax error.
pub open spec fn ttl_of(args: Seq<Seq<char>>) -> Result<Option<(TTL, usize)>, ()> {
    if args.len() < 5 {
        Ok(None)
    } else {
        let unit = uppercase(args[3]);
        if unit == "EX"@ || unit == "PX"@ {
            let ttl = if unit == "EX"@ { TTL::EX } else { TTL::PX };
            match parsed_usize(args[4]) {
                Some(n) => Ok(Some((ttl, n))),
                None => Err(()),
            }
        } else {
            Err(())
        }
    }
}

/// The condition that an argument names, in any case.
pub open spec fn lock_word(arg: Seq<char>) -> Option<Lock> {
    let u = uppercase(arg);
    if u == "NX"@ {
        Some(Lock::NX)
    } else if u == "XX"@ {
        Some(Lock::XX)
    } else {
        None
    }
}

/// The conditions named among the arguments, in order.
pub open spec fn lock_words(args: Seq<Seq<char>>) -> Seq<Lock>
    decreases args.len(),
{
    if args.len() == 0 {
        Seq::empty()
    } else {
        let rest = lock_words(args.drop_last());
        match lock_word(args.last()) {
            Some(l) => rest.push(l),
            None => rest,
        }
    }
}

/// The condition that `set` arguments ask for, read among the option words
/// after the value: none where no option word is `NX` or `XX`, the one named
/// where one is, and a syntax error where several are.
pub open spec fn lock_of(args: Seq<Seq<char>>) -> Result<Option<Lock>, ()> {
    if args.len() < 4 {
        Ok(None)
    } else {
        let named = lock_words(args.subrange(3, args.len() as int));
        if named.len() == 0 {
            Ok(None)
        } else if named.len() == 1 {
            Ok(Some(named[0]))
        } else {
            Err(())
        }
    }
}

/// The command that `set` arguments (the name first) stand for.
pub open spec fn set_command(args: Seq<Seq<char>>) -> ProtocolModel {
    if args.len() < 3 {
        ProtocolModel::Error("ERR wrong number of arguments for 'set' command"@)
    } else {
        match (ttl_of(args), lock_of(args)) {
            (Ok(ttl), Ok(lock)) => ProtocolModel::StrSet {
                typ: KeyType::String,
                key: args[1],
                value: args[2],
                ttl,
                lock,
            },
            _ => ProtocolModel::Error("ERR syntax error"@),
        }
    }
}

/// Parses the arguments of `set` (the command name first).
pub fn transform(param: Vec<String>) -> (p: Protocol)
    ensures
        p@ == set_command(views(param@)),
{
    if param.len() < 3 {
        return Protocol::Error("ERR wrong number of arguments for 'set' command".to_owned());
    }
    let ttl = get_ttl(&param);
    if ttl.is_err() {
        return Protocol::Error("ERR syntax error".to_owned());
    }
    let lock = get_lock(&param);
    if lock.is_err() {
        return Protocol::Error("ERR syntax error".to_owned());
    }
    Protocol::StrSet {
        typ: KeyType::String,
        key: param[1].clone(),
        value: param[2].clone(),
        ttl: ttl.unwrap(),
        lock: lock.unwrap(),
    }
}

/// Reads the expiry of a `set` command.
fn get_ttl(data: &Vec<String>) -> (r: Result<Option<(TTL, usize)>, ()>)
    ensures
        r == ttl_of(views(data@)),
{
    if data.len() < 3 {
        return Ok(None);
    }
    if data.len() <= 3 || data.len() <= 4 {
        return Ok(None);
    }
    let t = to_uppercase(data[3].as_str());
    if !same_text(&t, "EX") && !same_text(&t, "PX") {
        return Err(());
    }
    let ttl = if same_text(&t, "EX") {
        TTL::EX
    } else {
        TTL::PX
    };
    match parse_usize(data[4].as_str()) {
        None => Err(()),
        Some(n) => Ok(Some((ttl, n))),
    }
}

/// Reads the condition of a `set` command.
fn get_lock(data: &Vec<String>) -> (r: Result<Option<Lock>, ()>)
    ensures
        r == lock_of(views(data@)),
{
    if data.len() < 4 {
        return Ok(None);
    }
    let ghost args = views(data@);
    let mut count: usize = 0;
    let mut lock = Lock::NX;
    proof {
        assert(args.subrange(3, 3) =~= Seq::<Seq<char>>::empty());
    }
    let mut i: usize = 3;
    while i < data.len()
        invariant
            3 <= i <= data.len(),
            args == views(data@),
            count == lock_words(args.subrange(3, i as int)).len(),
            count <= i,
            count > 0 ==> lock == lock_words(args.subrange(3, i as int)).last(),
        decreases data.len() - i,
    {
        let upper = to_uppercase(data[i].as_str());
        proof {
            assert(args.subrange(3, i + 1).drop_last() =~= args.subrange(3, i as int));
            assert(args.subrange(3, i + 1).last() == data@[i as int]@);
            assert(upper@ == uppercase(args.subrange(3, i + 1).last()));
            reveal_strlit("NX");
            reveal_strlit("XX");
            assert("NX"@[0] != "XX"@[0]);
        }
        if same_text(&upper, "NX") {
            count = count + 1;
            lock = Lock::NX;
        }
        if same_text(&upper, "XX") {
            count = count + 1;
            lock = Lock::XX;
        }
        i = i + 1;
    }
    if count == 0 {
        return Ok(None);
    }
    if count > 1 {
        return Err(());
    }
    Ok(Some(lock))
}

/// A stored `set` of the key and value in their places, with the expiry
/// and the condition.
pub open spec fn set_in_place(args: Seq<Seq<char>>, ttl: Option<(TTL, usize)>, lock: Option<Lock>) -> ProtocolModel {
    ProtocolModel::StrSet { typ: KeyType::String, key: args[1], value: args[2], ttl, lock }
}

/// The unit an option word names, `EX` or else `PX`.
pub open spec fn unit_named(word: Seq<char>) -> TTL {
    if uppercase(word) == "EX"@ {
        TTL::EX
    } else {
        TTL::PX
    }
}

/// `set key value [EX seconds|PX milliseconds] [NX|XX]`: the key and the
/// value are the words in their places, whatever they spell; with no option
/// words there is neither expiry nor condition; an `NX` or `XX` alone after
/// the value is the condition; a unit and a number after the value are the
/// expiry, with the condition, if any, after them; any other word where the
/// unit belongs is a syntax error.
pub proof fn law_set_grammar(args: Seq<Seq<char>>)
    requires
        args.len() >= 3,
    ensures
        (set_command(args) matches ProtocolModel::StrSet { typ, key, value, .. } ==> typ == KeyType::String
            && key == args[1] && value == args[2]),
        args.len() == 3 ==> set_command(args) == set_in_place(args, None, None),
        args.len() == 4 && uppercase(args[3]) == "NX"@ ==> set_command(args) == set_in_place(args, None, Some(Lock::NX)),
        args.len() == 4 && uppercase(args[3]) == "XX"@ ==> set_command(args) == set_in_place(args, None, Some(Lock::XX)),
        forall|n: usize|
            args.len() == 5 && (uppercase(args[3]) == "EX"@ || uppercase(args[3]) == "PX"@)
                && #[trigger] parsed_usize(args[4]) == Some(n) && uppercase(args[4]) != "NX"@
                && uppercase(args[4]) != "XX"@ ==> set_command(args) == set_in_place(
                args,
                Some((unit_named(args[3]), n)),
                None,
            ),
        forall|n: usize|
            args.len() == 6 && (uppercase(args[3]) == "EX"@ || uppercase(args[3]) == "PX"@)
                && #[trigger] parsed_usize(args[4]) == Some(n) && uppercase(args[4]) != "NX"@
                && uppercase(args[4]) != "XX"@ && uppercase(args[5]) == "NX"@ ==> set_command(args) == set_in_place(
                args,
                Some((unit_named(args[3]), n)),
                Some(Lock::NX),
            ),
        forall|n: usize|
            args.len() == 6 && (uppercase(args[3]) == "EX"@ || uppercase(args[3]) == "PX"@)
                && #[trigger] parsed_usize(args[4]) == Some(n) && uppercase(args[4]) != "NX"@
                && uppercase(args[4]) != "XX"@ && uppercase(args[5]) == "XX"@ ==> set_command(args) == set_in_place(
                args,
                Some((unit_named(args[3]), n)),
                Some(Lock::XX),
            ),
        args.len() >= 5 && uppercase(args[3]) != "EX"@ && uppercase(args[3]) != "PX"@ ==> set_command(args)
            == ProtocolModel::Error("ERR syntax error"@),
{
    reveal_strlit("NX");
    reveal_strlit("XX");
    reveal_strlit("EX");
    reveal_strlit("PX");
    assert("NX"@[0] != "XX"@[0]);
    assert("EX"@[0] != "PX"@[0]);
    assert("EX"@[0] != "NX"@[0] && "EX"@[0] != "XX"@[0]);
    assert("PX"@[0] != "NX"@[0] && "PX"@[0] != "XX"@[0]);
    reveal_with_fuel(lock_words, 4);
    if args.len() == 4 {
        let o = args.subrange(3, 4);
        assert(o.drop_last() =~= Seq::<Seq<char>>::empty());
        assert(o.last() == args[3]);
    } else if args.len() == 5 {
        let o = args.subrange(3, 5);
        assert(o.drop_last() =~= args.subrange(3, 4));
        assert(args.subrange(3, 4).drop_last() =~= Seq::<Seq<char>>::empty());
        assert(o.last() == args[4]);
        assert(args.subrange(3, 4).last() == args[3]);
    } else if args.len() == 6 {
        let o = args.subrange(3, 6);
        assert(o.drop_last() =~= args.subrange(3, 5));
        assert(args.subrange(3, 5).drop_last() =~= args.subrange(3, 4));
        assert(args.subrange(3, 4).drop_last() =~= Seq::<Seq<char>>::empty());
        assert(o.last() == args[5]);
        assert(args.subrange(3, 5).last() == args[4]);
        assert(args.subrange(3, 4).last() == args[3]);
    }
}

} // verus!
