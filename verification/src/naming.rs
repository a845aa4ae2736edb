//! Names and SQL fragments built from catalog values.

use vstd::prelude::*;
use vstd::string::*;

verus! {

/// The display name of a company package: company name, a hyphen, package name.
pub open spec fn company_package_name_spec(company_name: Seq<char>, package_name: Seq<char>) -> Seq<char> {
    company_name + seq!['-'] + package_name
}

/// Builds the composite display name `"{company}-{package}"`.
pub fn get_company_package_name(company_name: &str, package_name: &str) -> (name: String)
    ensures
        name@ == company_package_name_spec(company_name@, package_name@),
{
    proof {
        reveal_strlit("-");
    }
    let mut name = String::from_str(company_name);
    name.append("-");
    name.append(package_name);
    assert("-"@ =~= seq!['-']);
    name
}


/// A country code between single quotes.
pub open spec fn quoted(code: Seq<char>) -> Seq<char> {
    seq!['\''] + code + seq!['\'']
}

/// The quoted codes with commas between them.
pub open spec fn quoted_list(codes: Seq<String>) -> Seq<char>
    decreases codes.len(),
{
    if codes.len() == 0 {
        Seq::empty()
    } else if codes.len() == 1 {
        quoted(codes[0]@)
    } else {
        quoted_list(codes.drop_last()) + seq![','] + quoted(codes.last()@)
    }
}

/// The SQL array literal of the codes: `array['AAA','BBB']`.
pub open spec fn pg_str_json_array_spec(codes: Seq<String>) -> Seq<char> {
    seq!['a', 'r', 'r', 'a', 'y', '['] + quoted_list(codes) + seq![']']
}

/// Writes country codes as an SQL array literal of quoted strings.
pub fn get_pg_str_json_array(countries: Vec<String>) -> (text: String)
    ensures
        text@ == pg_str_json_array_spec(countries@),
{
    proof {
        reveal_strlit("array[");
        reveal_strlit("'");
        reveal_strlit(",");
        reveal_strlit("]");
    }
    let mut text = String::from_str("array[");
    assert("array["@ =~= seq!['a', 'r', 'r', 'a', 'y', '[']);
    assert("'"@ =~= seq!['\'']);
    assert(","@ =~= seq![',']);
    assert("]"@ =~= seq![']']);
    let ghost head = seq!['a', 'r', 'r', 'a', 'y', '['];
    let mut i: usize = 0;
    assert(countries@.take(0) =~= Seq::<String>::empty());
    assert(text@ =~= head + quoted_list(countries@.take(0)));
    while i < countries.len()
        invariant
            0 <= i <= countries.len(),
            head == seq!['a', 'r', 'r', 'a', 'y', '['],
            "'"@ == seq!['\''],
            ","@ == seq![','],
            text@ == head + quoted_list(countries@.take(i as int)),
        decreases countries.len() - i,
    {
        let ghost before = countries@.take(i as int);
        let ghost after = countries@.take(i + 1);
        proof {
            assert(after.drop_last() =~= before);
            assert(after.last() == countries@[i as int]);
        }
        if i > 0 {
            text.append(",");
        }
        text.append("'");
        text.append(countries[i].as_str());
        text.append("'");
        proof {
            if i == 0 {
                assert(quoted_list(before) =~= Seq::<char>::empty());
                assert(text@ =~= head + quoted(countries@[0]@));
            } else {
                assert(text@ =~= head + (quoted_list(before) + seq![','] + quoted(
                    countries@[i as int]@,
                )));
            }
        }
        i += 1;
    }
    assert(countries@.take(i as int) =~= countries@);
    text.append("]");
    assert(text@ =~= pg_str_json_array_spec(countries@));
    text
}

} // verus!
