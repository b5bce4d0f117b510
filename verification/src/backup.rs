//! Backups: a portfolio in an envelope that says what it is.

use vstd::prelude::*;
use crate::json;
use crate::json::JsonTree;
use crate::text;

verus! {

/// The document of a backup.
pub open spec fn bundle_tree(portfolio: JsonTree, created_on: Seq<char>) -> JsonTree {
    JsonTree::Object(
        Map::<Seq<char>, JsonTree>::empty().insert(
            "format"@,
            JsonTree::Text("Aureus Backup"@),
        ).insert("bundle_version"@, JsonTree::Integer(2)).insert(
            "created_on"@,
            JsonTree::Text(created_on),
        ).insert("portfolio"@, portfolio),
    )
}

/// What stands against a document as a backup. The format is the text that it names as
/// its format, the version the number it names as its version.
pub open spec fn envelope_fault(
    format: Option<Seq<char>>,
    version: Option<int>,
    has_portfolio: bool,
) -> Option<Seq<char>> {
    if format != Some("Aureus Backup"@) {
        Some("This is not a current Aureus backup"@)
    } else {
        match version {
            None => Some("This is not a current Aureus backup"@),
            Some(n) => if n != 1 && n != 2 {
                Some("This is not a supported Aureus backup"@)
            } else if !has_portfolio {
                Some("The backup is missing portfolio data"@)
            } else {
                None
            },
        }
    }
}

/// Checks the envelope of a backup.
pub fn check_envelope(format: Option<&str>, version: Option<u64>, has_portfolio: bool) -> (r: Result<
    (),
    &'static str,
>)
    ensures
        ({
            let fault = envelope_fault(
                crate::charts::text_view(format),
                match version {
                    Some(n) => Some(n as int),
                    None => None,
                },
                has_portfolio,
            );
            match r {
                Ok(_) => fault is None,
                Err(message) => fault == Some(message@),
            }
        }),
{
    let named = match format {
        Some(name) => text::same_text(name, "Aureus Backup"),
        None => false,
    };
    if !named {
        return Err("This is not a current Aureus backup");
    }
    match version {
        None => Err("This is not a current Aureus backup"),
        Some(n) => if n != 1 && n != 2 {
            Err("This is not a supported Aureus backup")
        } else if !has_portfolio {
            Err("The backup is missing portfolio data")
        } else {
            Ok(())
        },
    }
}

pub open spec fn member_text(tree: JsonTree, key: Seq<char>) -> Option<Seq<char>> {
    match json::member_of(tree, key) {
        Some(member) => json::text_of(member),
        None => None,
    }
}

pub open spec fn member_unsigned(tree: JsonTree, key: Seq<char>) -> Option<int> {
    match json::member_of(tree, key) {
        Some(member) => json::unsigned_of(member),
        None => None,
    }
}

/// The portfolio in the document of a backup, or what stands against the document.
pub open spec fn portfolio_of(tree: JsonTree) -> Result<JsonTree, Seq<char>> {
    match envelope_fault(
        member_text(tree, "format"@),
        member_unsigned(tree, "bundle_version"@),
        json::member_of(tree, "portfolio"@) is Some,
    ) {
        Some(fault) => Err(fault),
        None => Ok(json::member_of(tree, "portfolio"@)->0),
    }
}

/// Only the format, the version and the portfolio of a backup count: whatever else
/// stands in the document, such as pictures, is left out.
pub proof fn other_members_do_not_count(a: JsonTree, b: JsonTree)
    requires
        json::member_of(a, "format"@) == json::member_of(b, "format"@),
        json::member_of(a, "bundle_version"@) == json::member_of(b, "bundle_version"@),
        json::member_of(a, "portfolio"@) == json::member_of(b, "portfolio"@),
    ensures
        portfolio_of(a) == portfolio_of(b),
{
}

proof fn keys_differ()
    ensures
        "format"@ != "bundle_version"@,
        "format"@ != "created_on"@,
        "format"@ != "portfolio"@,
        "bundle_version"@ != "created_on"@,
        "bundle_version"@ != "portfolio"@,
        "created_on"@ != "portfolio"@,
{
    reveal_strlit("format");
    reveal_strlit("bundle_version");
    reveal_strlit("created_on");
    reveal_strlit("portfolio");
    assert("format"@[0] == 'f' && "bundle_version"@[0] == 'b' && "created_on"@[0] == 'c'
        && "portfolio"@[0] == 'p');
}

/// The document made for a portfolio holds that portfolio.
pub proof fn bundle_holds_portfolio(portfolio: JsonTree, created_on: Seq<char>)
    ensures
        portfolio_of(bundle_tree(portfolio, created_on)) == Ok::<JsonTree, Seq<char>>(portfolio),
{
    keys_differ();
}

/// The bytes of a backup of a portfolio, or what is said against it.
pub open spec fn exported(portfolio_json: Seq<char>, created_on: Seq<char>) -> Result<
    Seq<u8>,
    Seq<char>,
> {
    match json::json_from_str(portfolio_json) {
        Err(error) => Err("Could not prepare portfolio backup: "@ + error),
        Ok(portfolio) => json::json_pretty(bundle_tree(portfolio, created_on)),
    }
}

/// The portfolio that a backup restores, as text, or what is said against the backup.
pub open spec fn imported(contents: Seq<u8>) -> Result<Seq<char>, Seq<char>> {
    match json::json_from_slice(contents) {
        Err(error) => Err("This is not a valid Aureus backup: "@ + error),
        Ok(bundle) => match portfolio_of(bundle) {
            Err(fault) => Err(fault),
            Ok(portfolio) => json::json_compact(portfolio),
        },
    }
}

proof fn bundle_is_readable(portfolio: JsonTree, created_on: Seq<char>, depth: nat)
    ensures
        json::readable_within(bundle_tree(portfolio, created_on), depth + 1)
            <==> json::readable_within(portfolio, depth),
{
    keys_differ();
    let tree = bundle_tree(portfolio, created_on);
    let members = tree->Object_0;
    assert(members["portfolio"@] == portfolio);
    assert(members.dom().contains("portfolio"@));
    assert forall|key: Seq<char>|
        members.dom().contains(key) && json::readable_within(
            portfolio,
            depth,
        ) implies json::readable_within(#[trigger] members[key], depth) by {
        if key == "portfolio"@ {
        } else if key == "format"@ || key == "bundle_version"@ || key == "created_on"@ {
        }
    }
}

/// What is read where the document of a backup was written is a backup of what is read
/// where the portfolio was written.
proof fn read_bundle_holds_portfolio(
    back: JsonTree,
    portfolio: JsonTree,
    created_on: Seq<char>,
    depth: nat,
)
    requires
        json::reads_as(back, bundle_tree(portfolio, created_on), depth),
        depth > 0,
    ensures
        portfolio_of(back) matches Ok(restored) && json::reads_as(
            restored,
            portfolio,
            (depth - 1) as nat,
        ),
{
    keys_differ();
    let tree = bundle_tree(portfolio, created_on);
    let made = tree->Object_0;
    assert(back is Object);
    let members = back->Object_0;
    assert(members.dom() == made.dom());
    let less = (depth - 1) as nat;
    assert(json::reads_as(members["format"@], made["format"@], less));
    assert(json::reads_as(members["bundle_version"@], made["bundle_version"@], less));
    assert(json::reads_as(members["portfolio"@], made["portfolio"@], less));
    assert(members.dom().contains("format"@));
    assert(members.dom().contains("bundle_version"@));
    assert(members.dom().contains("portfolio"@));
}

/// The depth of nesting of a portfolio that its backup is read back with: the document
/// around it is one level more.
pub open spec fn portfolio_depth() -> nat {
    (json::readable_depth() - 1) as nat
}

/// The bytes are a backup of the portfolio. They are read exactly where each of its numbers
/// is, and where it is not nested too deep; and the portfolio in them is as it is read.
pub open spec fn restores(contents: Seq<u8>, portfolio: JsonTree) -> bool {
    &&& json::json_from_slice(contents) is Ok <==> json::readable_within(
        portfolio,
        portfolio_depth(),
    )
    &&& json::json_from_slice(contents) matches Ok(bundle) ==> portfolio_of(bundle) matches Ok(
        restored,
    ) && json::reads_as(restored, portfolio, portfolio_depth())
}

/// What comes of reading a backup: a text that is read as the portfolio in it, where there
/// is one.
pub open spec fn reads_backup(contents: Seq<u8>, r: Result<Seq<char>, Seq<char>>) -> bool {
    &&& r == imported(contents)
    &&& match json::json_from_slice(contents) {
        Ok(bundle) => match portfolio_of(bundle) {
            Ok(portfolio) => r matches Ok(written) && json::reads_back(
                json::json_from_str(written),
                portfolio,
            ),
            Err(_) => r is Err,
        },
        Err(_) => r is Err,
    }
}

/// A backup gives the portfolio back. It is read exactly where each number in the portfolio
/// that has a fraction or an exponent is read once it is written, and where the portfolio
/// is not nested too deep. What it holds is the same portfolio exactly where each of these
/// numbers is read back as itself, and the text that comes out is then read as the same
/// portfolio too. So it is wherever there are no such numbers. In any case, the portfolio
/// differs at most in them.
pub proof fn backup_restores_portfolio(
    contents: Seq<u8>,
    portfolio: JsonTree,
    r: Result<Seq<char>, Seq<char>>,
)
    requires
        restores(contents, portfolio),
        reads_backup(contents, r),
    ensures
        r is Ok <==> json::readable_within(portfolio, portfolio_depth()),
        r is Ok ==> (json::json_from_slice(contents) matches Ok(bundle) && (portfolio_of(bundle)
            == Ok::<JsonTree, Seq<char>>(portfolio) <==> json::survives_within(
            portfolio,
            portfolio_depth(),
        ))),
        json::survives_within(portfolio, portfolio_depth()) ==> (r matches Ok(written)
            && json::json_from_str(written) == Ok::<JsonTree, Seq<char>>(portfolio)),
        json::plain_within(portfolio, portfolio_depth()) ==> (r matches Ok(written)
            && json::json_from_str(written) == Ok::<JsonTree, Seq<char>>(portfolio)),
        r matches Ok(written) ==> (json::json_from_str(written) matches Ok(back)
            ==> json::alike_within(back, portfolio, json::readable_depth())),
{
    let depth = portfolio_depth();
    let whole = json::readable_depth();
    json::surviving_values_are_read(portfolio, depth);
    if json::json_from_slice(contents) is Ok {
        let restored = portfolio_of(json::json_from_slice(contents)->Ok_0)->Ok_0;
        json::reads_exactly_what_survives(restored, portfolio, depth);
        json::reads_alike(restored, portfolio, depth);
        json::alike_within_more(restored, portfolio, depth, whole);
        let back = json::json_from_str(r->Ok_0);
        if json::survives_within(portfolio, depth) {
            json::survives_within_more(portfolio, depth, whole);
            json::surviving_values_are_read(portfolio, whole);
            json::reads_exactly_what_survives(back->Ok_0, portfolio, whole);
        }
        if back is Ok {
            json::reads_alike(back->Ok_0, restored, whole);
            json::alike_is_transitive(back->Ok_0, restored, portfolio, whole);
        }
    }
}

/// Makes a backup of a portfolio. What it makes restores the portfolio.
pub fn build_backup_bundle(portfolio_json: &str, created_on: &str) -> (r: Result<Vec<u8>, String>)
    ensures
        match r {
            Ok(bytes) => exported(portfolio_json@, created_on@) == Ok::<Seq<u8>, Seq<char>>(bytes@),
            Err(error) => exported(portfolio_json@, created_on@) == Err::<Seq<u8>, Seq<char>>(
                error@,
            ),
        },
        r is Ok <==> json::json_from_str(portfolio_json@) is Ok,
        r matches Ok(bytes) ==> json::json_from_str(portfolio_json@) matches Ok(portfolio)
            && restores(bytes@, portfolio),
{
    let portfolio = match json::read_str(portfolio_json) {
        Ok(portfolio) => portfolio,
        Err(error) => {
            let mut message = "Could not prepare portfolio backup: ".to_owned();
            message.append(json::error_message(&error).as_str());
            return Err(message);
        },
    };
    let ghost tree = json::json_tree(portfolio);
    let mut bundle = json::null_value();
    json::set_member(&mut bundle, "format", json::text_value("Aureus Backup"));
    json::set_member(&mut bundle, "bundle_version", json::unsigned_value(2));
    json::set_member(&mut bundle, "created_on", json::text_value(created_on));
    json::set_member(&mut bundle, "portfolio", portfolio);
    let ghost whole = bundle_tree(tree, created_on@);
    assert(json::json_tree(bundle) == whole);
    match json::write_pretty(&bundle) {
        Ok(bytes) => {
            proof {
                let depth = json::readable_depth();
                bundle_is_readable(tree, created_on@, portfolio_depth());
                if json::json_from_slice(bytes@) is Ok {
                    read_bundle_holds_portfolio(
                        json::json_from_slice(bytes@)->Ok_0,
                        tree,
                        created_on@,
                        depth,
                    );
                }
            }
            Ok(bytes)
        },
        Err(error) => Err(json::error_message(&error)),
    }
}

/// Reads a backup and gives the portfolio in it as text.
pub fn parse_backup_bundle(contents: &[u8]) -> (r: Result<String, String>)
    ensures
        match r {
            Ok(portfolio) => reads_backup(contents@, Ok::<Seq<char>, Seq<char>>(portfolio@)),
            Err(error) => reads_backup(contents@, Err::<Seq<char>, Seq<char>>(error@)),
        },
{
    let bundle = match json::read_slice(contents) {
        Ok(bundle) => bundle,
        Err(error) => {
            let mut message = "This is not a valid Aureus backup: ".to_owned();
            message.append(json::error_message(&error).as_str());
            return Err(message);
        },
    };
    let format = match json::member(&bundle, "format") {
        Some(value) => json::as_text(value),
        None => None,
    };
    let version = match json::member(&bundle, "bundle_version") {
        Some(value) => json::as_unsigned(value),
        None => None,
    };
    let portfolio = json::member(&bundle, "portfolio");
    match check_envelope(format, version, portfolio.is_some()) {
        Err(fault) => Err(fault.to_owned()),
        Ok(_) => match portfolio {
            Some(portfolio) => match json::write_compact(portfolio) {
                Ok(written) => Ok(written),
                Err(error) => Err(json::error_message(&error)),
            },
            None => Err("The backup is missing portfolio data".to_owned()),
        },
    }
}

/// The name under which a backup is saved.
pub fn backup_file_name(date: &str) -> (r: String)
    ensures
        r@ == "backup-"@ + date@ + ".aureus"@,
{
    let mut r = "backup-".to_owned();
    r.append(date);
    r.append(".aureus");
    r
}

/// A backup replaces data only after a question, where there is any.
pub fn import_needs_confirmation(accounts: usize, positions: usize, watchlist: usize) -> (r: bool)
    ensures
        r == (accounts > 0 || positions > 0 || watchlist > 0),
{
    accounts > 0 || positions > 0 || watchlist > 0
}

/// A document is taken as a backup exactly where it says that it is one, in the first or the
/// second version, and holds a portfolio, which is what comes out of it.
pub proof fn backup_says_what_it_is(members: Map<Seq<char>, JsonTree>)
    ensures
        ({
            let made = portfolio_of(JsonTree::Object(members));
            let named = members.dom().contains("format"@) && members["format"@] == JsonTree::Text(
                "Aureus Backup"@,
            );
            let known = members.dom().contains("bundle_version"@) && (members["bundle_version"@]
                == JsonTree::Integer(1) || members["bundle_version"@] == JsonTree::Integer(2));
            &&& made is Ok <==> named && known && members.dom().contains("portfolio"@)
            &&& made is Ok ==> made->Ok_0 == members["portfolio"@]
            &&& !named ==> made == Err::<JsonTree, Seq<char>>(
                "This is not a current Aureus backup"@,
            )
            &&& named && !members.dom().contains("bundle_version"@) ==> made == Err::<
                JsonTree,
                Seq<char>,
            >("This is not a current Aureus backup"@)
            &&& named && known && !members.dom().contains("portfolio"@) ==> made == Err::<
                JsonTree,
                Seq<char>,
            >("The backup is missing portfolio data"@)
        }),
        members.dom().contains("format"@) && members["format"@] == JsonTree::Text("Aureus Backup"@)
            && members.dom().contains("bundle_version"@) ==> {
            let version = members["bundle_version"@];
            let made = portfolio_of(JsonTree::Object(members));
            &&& version is Integer && (version->Integer_0 == 0 || version->Integer_0 > 2) ==> made
                == Err::<JsonTree, Seq<char>>("This is not a supported Aureus backup"@)
            &&& version !is Integer || version->Integer_0 < 0 ==> made == Err::<
                JsonTree,
                Seq<char>,
            >("This is not a current Aureus backup"@)
        },
{
}

/// The document that is made says that it is a backup of the second version, when it was made,
/// and what it holds; and nothing more.
pub proof fn document_has_four_members(portfolio: JsonTree, created_on: Seq<char>)
    ensures
        bundle_tree(portfolio, created_on) is Object,
        ({
            let members = bundle_tree(portfolio, created_on)->Object_0;
            &&& members.dom() == set!["format"@, "bundle_version"@, "created_on"@, "portfolio"@]
            &&& members["format"@] == JsonTree::Text("Aureus Backup"@)
            &&& members["bundle_version"@] == JsonTree::Integer(2)
            &&& members["created_on"@] == JsonTree::Text(created_on)
            &&& members["portfolio"@] == portfolio
        }),
{
    keys_differ();
    let members = bundle_tree(portfolio, created_on)->Object_0;
    assert(members.dom() =~= set!["format"@, "bundle_version"@, "created_on"@, "portfolio"@]);
}

/// What cannot be read is told with the reason, before a backup is made and after.
pub proof fn unreadable_text_is_told(portfolio_json: Seq<char>, contents: Seq<u8>, created_on: Seq<char>)
    ensures
        json::json_from_str(portfolio_json) matches Err(error) ==> exported(
            portfolio_json,
            created_on,
        ) == Err::<Seq<u8>, Seq<char>>("Could not prepare portfolio backup: "@ + error),
        json::json_from_slice(contents) matches Err(error) ==> imported(contents) == Err::<
            Seq<char>,
            Seq<char>,
        >("This is not a valid Aureus backup: "@ + error),
{
}

} // verus!
