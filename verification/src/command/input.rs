//! Input of a command: arguments, options and environment variables.

use vstd::prelude::*;
use crate::output::FieldErrorOutput;
use crate::schema::{recased, to_snake, FieldMeta, FieldType};
use crate::table::{get_text, lookup, stored, text_table};
use crate::text::{
    all_digits, digit, digits_value, parse_up_to, parsed, parsed_up_to, same, starts_with,
    strip_prefix, texts,
};
use crate::value::{entries, lemma_object_view, new_object, opt_value, store, Json, Number, Value};

verus! {

/// Whether a binary64 bit pattern is that of an infinity or of no number.
pub open spec fn not_finite(bits: u64) -> bool {
    (bits / 0x10_0000_0000_0000) % 0x800 == 0x7ff
}

/// The value of a binary64 number: JSON knows finite ones only.
pub open spec fn number_from_bits(bits: u64) -> Json {
    if not_finite(bits) {
        Json::Null
    } else {
        Json::Number(Number::Float { bits })
    }
}

/// Makes a value of a binary64 number, given by its bit pattern.
pub fn bits_value(bits: u64) -> (r: Value)
    ensures
        r@ == number_from_bits(bits),
{
    if (bits / 0x10_0000_0000_0000) % 0x800 == 0x7ff {
        Value::Null
    } else {
        Value::Number(Number::Float { bits })
    }
}

/// The integer that a text is: digits, with a sign before them if there is one,
/// within the range of 64-bit integers.
pub open spec fn integer(s: Seq<char>) -> Option<int> {
    if "-"@.is_prefix_of(s) {
        let digits = s.skip("-"@.len() as int);
        if digits.len() > 0 && all_digits(digits) && digits_value(digits)
            <= 0x8000_0000_0000_0000 {
            Some(-(digits_value(digits) as int))
        } else {
            None
        }
    } else {
        match parsed_up_to(s, 0x7fff_ffff_ffff_ffff) {
            Some(n) => Some(n as int),
            None => None,
        }
    }
}

/// An integer as a number.
pub open spec fn integer_number(n: int) -> Number {
    if n >= 0 {
        Number::PosInt(n as u64)
    } else {
        Number::NegInt(n as i64)
    }
}

/// Reads an integer.
fn parse_integer(s: &str) -> (r: Option<Number>)
    ensures
        r == match integer(s@) {
            Some(n) => Some(integer_number(n)),
            None => None,
        },
{
    if let Some(digits) = strip_prefix(s, "-") {
        if starts_with(digits.as_str(), "+") {
            proof {
                reveal_strlit("+");
                assert(digits@.subrange(0, "+"@.len() as int)[0] == '+');
                assert(!digit(digits@[0]));
                assert(!all_digits(digits@));
            }
            return None;
        }
        proof {
            reveal(parsed);
            reveal_strlit("+");
            if digits@.len() > 0 && digits@[0] == '+' {
                assert("+"@.is_prefix_of(digits@)) by {
                    assert(digits@.subrange(0, 1) =~= "+"@);
                }
            }
        }
        return match parse_up_to(digits.as_str(), 0x8000_0000_0000_0000) {
            Some(n) => {
                if n == 0 {
                    Some(Number::PosInt(0))
                } else if n == 0x8000_0000_0000_0000 {
                    Some(Number::NegInt(i64::MIN))
                } else {
                    Some(Number::NegInt(-(n as i64)))
                }
            },
            None => None,
        };
    }
    match parse_up_to(s, 0x7fff_ffff_ffff_ffff) {
        Some(n) => Some(Number::PosInt(n)),
        None => None,
    }
}

/// The value that an option's text stands for: an integer, another number, a
/// boolean or the text itself. `float` is the number that the text writes in
/// floating point, by its bit pattern.
pub open spec fn option_value(s: Seq<char>, float: Option<u64>) -> Json {
    match integer(s) {
        Some(n) => Json::Number(integer_number(n)),
        None => match float {
            Some(bits) => number_from_bits(bits),
            None => if s == "true"@ {
                Json::Bool(true)
            } else if s == "false"@ {
                Json::Bool(false)
            } else {
                Json::String(s)
            },
        },
    }
}

/// Parses an option value string, attempting to interpret it as a number
/// or boolean when appropriate. `float` is the number that the string writes in
/// floating point, if it writes one, by its binary64 bit pattern.
pub fn parse_option_value(value: &str, float: Option<u64>) -> (r: Value)
    ensures
        r@ == option_value(value@, float),
{
    if let Some(n) = parse_integer(value) {
        return Value::Number(n);
    }
    if let Some(bits) = float {
        return bits_value(bits);
    }
    if same(value, "true") {
        return Value::Bool(true);
    }
    if same(value, "false") {
        return Value::Bool(false);
    }
    Value::String(value.to_string())
}

/// The arguments that words give: one for each field, in their order, as long
/// as there are words.
pub open spec fn positional(
    words: Seq<Seq<char>>,
    fields: Seq<FieldMeta>,
    floats: Seq<Option<u64>>,
) -> Seq<(Seq<char>, Json)>
    decreases words.len(),
{
    if words.len() == 0 {
        Seq::empty()
    } else {
        let i = words.len() - 1;
        let head = positional(words.drop_last(), fields, floats);
        if i < fields.len() {
            stored(head, fields[i].name@, option_value(words[i], floats[i]))
        } else {
            head
        }
    }
}

/// Parses positional arguments from argv tokens. `floats` holds the number that
/// each token writes in floating point, if it writes one.
pub fn parse_args_from_argv(
    argv: &Vec<String>,
    args_fields: &Vec<FieldMeta>,
    floats: &Vec<Option<u64>>,
) -> (r: Value)
    requires
        floats@.len() == argv@.len(),
    ensures
        r@ == Json::Object(positional(texts(argv@), args_fields@, floats@)),
{
    broadcast use lemma_object_view;

    let ghost words = texts(argv@);
    let mut args = new_object();
    let mut i: usize = 0;
    assert(entries(args@) =~= positional(words.take(0), args_fields@, floats@));
    while i < argv.len()
        invariant
            i <= argv@.len(),
            floats@.len() == argv@.len(),
            words == texts(argv@),
            entries(args@) == positional(words.take(i as int), args_fields@, floats@),
        decreases argv.len() - i,
    {
        assert(words.take(i + 1).drop_last() =~= words.take(i as int));
        assert(words.take(i + 1)[i as int] == argv@[i as int]@);
        if i < args_fields.len() {
            store(
                &mut args,
                args_fields[i].name.clone(),
                parse_option_value(argv[i].as_str(), floats[i]),
            );
        }
        i += 1;
    }
    assert(words.take(words.len() as int) =~= words);
    Value::Object(args)
}

/// Whether one of the fields has the given name.
pub open spec fn has_field(fields: Seq<FieldMeta>, name: Seq<char>) -> bool {
    exists|i: int| 0 <= i < fields.len() && (#[trigger] fields[i]).name@ == name
}

fn is_field(fields: &Vec<FieldMeta>, name: &str) -> (r: bool)
    ensures
        r == has_field(fields@, name@),
{
    let mut i: usize = 0;
    while i < fields.len()
        invariant
            i <= fields@.len(),
            forall|k: int| 0 <= k < i ==> (#[trigger] fields@[k]).name@ != name@,
        decreases fields.len() - i,
    {
        if same(fields[i].name.as_str(), name) {
            return true;
        }
        i += 1;
    }
    false
}

/// The parameters that are arguments, or those that are options, under their
/// names with underscores.
pub open spec fn chosen_params(
    params: Seq<(Seq<char>, Json)>,
    args: Seq<FieldMeta>,
    arguments: bool,
) -> Seq<(Seq<char>, Json)>
    decreases params.len(),
{
    if params.len() == 0 {
        Seq::empty()
    } else {
        let head = chosen_params(params.drop_last(), args, arguments);
        let key = recased(params.last().0, '-', '_');
        if has_field(args, key) == arguments {
            stored(head, key, params.last().1)
        } else {
            head
        }
    }
}

/// Splits flat params into args vs options by field names (MCP mode). What is no
/// argument is an option, whether or not one of that name is declared.
pub fn split_flat_params(
    params: &Vec<(String, Value)>,
    args_fields: &Vec<FieldMeta>,
    _options_fields: &Vec<FieldMeta>,
) -> (r: (Value, Value))
    ensures
        r.0@ == Json::Object(chosen_params(entries(params@), args_fields@, true)),
        r.1@ == Json::Object(chosen_params(entries(params@), args_fields@, false)),
{
    broadcast use lemma_object_view;

    let ghost all = entries(params@);
    let mut args = new_object();
    let mut opts = new_object();
    let mut i: usize = 0;
    assert(entries(args@) =~= chosen_params(all.take(0), args_fields@, true));
    assert(entries(opts@) =~= chosen_params(all.take(0), args_fields@, false));
    while i < params.len()
        invariant
            i <= params@.len(),
            all == entries(params@),
            entries(args@) == chosen_params(all.take(i as int), args_fields@, true),
            entries(opts@) == chosen_params(all.take(i as int), args_fields@, false),
        decreases params.len() - i,
    {
        assert(all.take(i + 1).drop_last() =~= all.take(i as int));
        assert(all.take(i + 1).last() == (params@[i as int].0@, params@[i as int].1@));
        let key = to_snake(params[i].0.as_str());
        if is_field(args_fields, key.as_str()) {
            store(&mut args, key, params[i].1.copy());
        } else {
            store(&mut opts, key, params[i].1.copy());
        }
        i += 1;
    }
    assert(all.take(all.len() as int) =~= all);
    (Value::Object(args), Value::Object(opts))
}

/// The value that the text of an environment variable stands for.
pub open spec fn env_value(s: Seq<char>, field_type: FieldType, float: Option<u64>) -> Json {
    match field_type {
        FieldType::Boolean => Json::Bool(s == "1"@ || s == "true"@ || s == "yes"@),
        FieldType::Number => match float {
            Some(bits) => number_from_bits(bits),
            None => Json::String(s),
        },
        _ => Json::String(s),
    }
}

/// Parses a string value into the appropriate JSON type based on field type.
/// `float` is the number that the string writes in floating point, if it writes
/// one.
pub fn parse_env_value(value: &str, field_type: &FieldType, float: Option<u64>) -> (r: Value)
    ensures
        r@ == env_value(value@, *field_type, float),
{
    match field_type {
        FieldType::Boolean => Value::Bool(
            same(value, "1") || same(value, "true") || same(value, "yes"),
        ),
        FieldType::Number => match float {
            Some(bits) => bits_value(bits),
            None => Value::String(value.to_string()),
        },
        _ => Value::String(value.to_string()),
    }
}

/// The name of the environment variable that a field is read from.
pub open spec fn variable(field: FieldMeta) -> Seq<char> {
    match field.env_name {
        Some(name) => name@,
        None => field.name@,
    }
}

/// The name of the environment variable that a field is read from.
pub fn variable_name(field: &FieldMeta) -> (r: String)
    ensures
        r@ == variable(*field),
{
    match &field.env_name {
        Some(name) => name.clone(),
        None => field.name.clone(),
    }
}

/// What a field gets from the environment: the value of its variable, or its
/// default where the variable is not set.
pub open spec fn field_env(
    field: FieldMeta,
    source: Seq<(Seq<char>, Seq<char>)>,
    float: Option<u64>,
) -> Option<Json> {
    match lookup(source, variable(field)) {
        Some(text) => Some(env_value(text, field.field_type, float)),
        None => opt_value(field.default),
    }
}

/// What fields get from the environment.
pub open spec fn env_object(
    fields: Seq<FieldMeta>,
    source: Seq<(Seq<char>, Seq<char>)>,
    floats: Seq<Option<u64>>,
) -> Seq<(Seq<char>, Json)>
    decreases fields.len(),
{
    if fields.len() == 0 {
        Seq::empty()
    } else {
        let i = fields.len() - 1;
        let head = env_object(fields.drop_last(), source, floats);
        match field_env(fields[i], source, floats[i]) {
            Some(value) => stored(head, fields[i].name@, value),
            None => head,
        }
    }
}

/// Parses environment variables from the env source using field metadata.
/// `floats` holds, for each field, the number that the value of its variable
/// writes in floating point, if it writes one.
pub fn parse_env_fields(
    env_fields: &Vec<FieldMeta>,
    env_source: &Vec<(String, String)>,
    floats: &Vec<Option<u64>>,
) -> (r: Value)
    requires
        floats@.len() == env_fields@.len(),
    ensures
        r@ == Json::Object(env_object(env_fields@, text_table(env_source@), floats@)),
{
    broadcast use lemma_object_view;

    let ghost source = text_table(env_source@);
    let mut env = new_object();
    let mut i: usize = 0;
    assert(entries(env@) =~= env_object(env_fields@.take(0), source, floats@));
    while i < env_fields.len()
        invariant
            i <= env_fields@.len(),
            floats@.len() == env_fields@.len(),
            source == text_table(env_source@),
            entries(env@) == env_object(env_fields@.take(i as int), source, floats@),
        decreases env_fields.len() - i,
    {
        let field = &env_fields[i];
        assert(env_fields@.take(i + 1).drop_last() =~= env_fields@.take(i as int));
        assert(env_fields@.take(i + 1)[i as int] == *field);
        let name = variable_name(field);
        match get_text(env_source, name.as_str()) {
            Some(text) => {
                store(
                    &mut env,
                    field.name.clone(),
                    parse_env_value(text.as_str(), &field.field_type, floats[i]),
                );
            },
            None => {
                if let Some(default) = &field.default {
                    store(&mut env, field.name.clone(), default.copy());
                }
            },
        }
        i += 1;
    }
    assert(env_fields@.take(env_fields@.len() as int) =~= env_fields@);
    Value::Object(env)
}

/// Why input is refused.
#[derive(Debug)]
pub struct InputError {
    /// Human-readable message.
    pub message: String,
    /// The failures of single fields, where these are the reason.
    pub field_errors: Option<Vec<FieldErrorOutput>>,
}

/// Decides on input whose fields were checked: it is accepted exactly if no
/// field failed. `args_errors` and `options_errors` are the failures found.
pub fn validate_parsed_input(
    args: Vec<(String, Value)>,
    options: Vec<(String, Value)>,
    args_errors: Vec<FieldErrorOutput>,
    options_errors: Vec<FieldErrorOutput>,
) -> (r: Result<(Value, Value), InputError>)
    ensures
        match r {
            Ok((a, o)) => args_errors@.len() == 0 && options_errors@.len() == 0 && a
                == Value::Object(args) && o == Value::Object(options),
            Err(e) => (args_errors@.len() > 0 || options_errors@.len() > 0) && e.message@
                == "Validation failed"@ && (e.field_errors matches Some(all) && all@
                == args_errors@ + options_errors@),
        },
{
    let mut field_errors = args_errors;
    let mut more = options_errors;
    field_errors.append(&mut more);
    if field_errors.len() > 0 {
        return Err(
            InputError {
                message: "Validation failed".to_string(),
                field_errors: Some(field_errors),
            },
        );
    }
    Ok((Value::Object(args), Value::Object(options)))
}

// ---------------------------------------------------------------------------
// Laws
// ---------------------------------------------------------------------------

/// Every parameter is an argument or an option, and none is both: of the two
/// tables, a parameter's name is in the one that the fields say it belongs to.
pub proof fn law_params_are_split(params: Seq<(Seq<char>, Json)>, args: Seq<FieldMeta>, i: int)
    requires
        0 <= i < params.len(),
    ensures
        ({
            let key = recased(params[i].0, '-', '_');
            let is_argument = has_field(args, key);
            &&& lookup(chosen_params(params, args, is_argument), key) is Some
            &&& lookup(chosen_params(params, args, !is_argument), key) is None
        }),
    decreases params.len(),
{
    let key = recased(params[i].0, '-', '_');
    let is_argument = has_field(args, key);
    lemma_not_chosen(params, args, !is_argument, key);
    let last = recased(params.last().0, '-', '_');
    crate::table::lemma_lookup_stored(
        chosen_params(params.drop_last(), args, is_argument),
        last,
        params.last().1,
        key,
    );
    if i < params.len() - 1 {
        law_params_are_split(params.drop_last(), args, i);
        assert(params.drop_last()[i] == params[i]);
    }
}

proof fn lemma_not_chosen(
    params: Seq<(Seq<char>, Json)>,
    args: Seq<FieldMeta>,
    arguments: bool,
    key: Seq<char>,
)
    requires
        has_field(args, key) != arguments,
    ensures
        lookup(chosen_params(params, args, arguments), key) is None,
    decreases params.len(),
{
    if params.len() > 0 {
        lemma_not_chosen(params.drop_last(), args, arguments, key);
        let last = recased(params.last().0, '-', '_');
        crate::table::lemma_lookup_stored(
            chosen_params(params.drop_last(), args, arguments),
            last,
            params.last().1,
            key,
        );
    }
}

/// The environment fields before one of a name that stands last.
proof fn lemma_env_kept(
    fields: Seq<FieldMeta>,
    source: Seq<(Seq<char>, Seq<char>)>,
    floats: Seq<Option<u64>>,
    name: Seq<char>,
    i: int,
)
    requires
        0 <= i <= fields.len(),
        forall|j: int| i <= j < fields.len() ==> (#[trigger] fields[j]).name@ != name,
    ensures
        lookup(env_object(fields, source, floats), name) == lookup(
            env_object(fields.take(i), source, floats),
            name,
        ),
    decreases fields.len(),
{
    if i == fields.len() {
        assert(fields.take(i) =~= fields);
    } else {
        let head = fields.drop_last();
        let k = fields.len() - 1;
        assert forall|j: int| i <= j < head.len() implies (#[trigger] head[j]).name@ != name by {
            assert(fields[j].name@ != name);
        }
        lemma_env_kept(head, source, floats, name, i);
        assert(head.take(i) =~= fields.take(i));
        if let Some(value) = field_env(fields[k], source, floats[k]) {
            crate::table::lemma_lookup_stored(
                env_object(head, source, floats),
                fields[k].name@,
                value,
                name,
            );
        }
    }
}

proof fn lemma_env_absent(
    fields: Seq<FieldMeta>,
    source: Seq<(Seq<char>, Seq<char>)>,
    floats: Seq<Option<u64>>,
    name: Seq<char>,
)
    requires
        forall|j: int| 0 <= j < fields.len() ==> (#[trigger] fields[j]).name@ != name,
    ensures
        lookup(env_object(fields, source, floats), name) is None,
{
    lemma_env_kept(fields, source, floats, name, 0);
    let none = env_object(fields.take(0), source, floats);
    crate::table::lemma_position_from(crate::table::keys(none), name, 0);
}

/// Of fields with names of their own, each holds the value of its variable where that
/// is set, whatever its default; its default where the variable is not set and there is
/// one; and nothing otherwise. The variable is the one that the field names, or that of
/// its own name. A truth value is true for `1`, `true` and `yes` alone, a number is the
/// one that the text writes, and anything else is the text.
pub proof fn law_variables_win_over_defaults(
    fields: Seq<FieldMeta>,
    source: Seq<(Seq<char>, Seq<char>)>,
    floats: Seq<Option<u64>>,
    i: int,
)
    requires
        0 <= i < fields.len(),
        forall|j: int, k: int|
            0 <= j < k < fields.len() ==> (#[trigger] fields[j]).name@ != (
            #[trigger] fields[k]).name@,
    ensures
        ({
            let f = fields[i];
            let variable = match f.env_name {
                Some(name) => name@,
                None => f.name@,
            };
            let held = lookup(env_object(fields, source, floats), f.name@);
            match lookup(source, variable) {
                Some(text) => held == Some(
                    match f.field_type {
                        FieldType::Boolean => Json::Bool(
                            text == "1"@ || text == "true"@ || text == "yes"@,
                        ),
                        FieldType::Number => match floats[i] {
                            Some(bits) => number_from_bits(bits),
                            None => Json::String(text),
                        },
                        _ => Json::String(text),
                    },
                ),
                None => held == (match f.default {
                    Some(value) => Some(value@),
                    None => None,
                }),
            }
        }),
{
    let name = fields[i].name@;
    lemma_env_kept(fields, source, floats, name, i + 1);
    let upto = fields.take(i + 1);
    let head = upto.drop_last();
    assert(upto[i] == fields[i]);
    assert forall|j: int| 0 <= j < head.len() implies (#[trigger] head[j]).name@ != name by {
        assert(head[j] == fields[j]);
    }
    lemma_env_absent(head, source, floats, name);
    if let Some(value) = field_env(fields[i], source, floats[i]) {
        crate::table::lemma_lookup_stored(
            env_object(head, source, floats),
            name,
            value,
            name,
        );
    }
}

/// The environment of a command holds nothing but its fields.
pub proof fn law_only_fields_are_read(
    fields: Seq<FieldMeta>,
    source: Seq<(Seq<char>, Seq<char>)>,
    floats: Seq<Option<u64>>,
    name: Seq<char>,
)
    requires
        forall|i: int| 0 <= i < fields.len() ==> (#[trigger] fields[i]).name@ != name,
    ensures
        lookup(env_object(fields, source, floats), name) is None,
{
    lemma_env_absent(fields, source, floats, name);
}

/// The value that a word of the command line stands for: the integer it writes where
/// that fits, the number it writes otherwise, a truth value for `true` and `false`, and
/// the word itself in every other case.
pub proof fn law_words_are_typed(s: Seq<char>, float: Option<u64>)
    ensures
        ({
            let v = option_value(s, float);
            &&& integer(s) matches Some(n) ==> v == Json::Number(
                if n >= 0 {
                    Number::PosInt(n as u64)
                } else {
                    Number::NegInt(n as i64)
                },
            )
            &&& integer(s) is None && float is Some && !not_finite(float->0) ==> v == Json::Number(
                Number::Float { bits: float->0 },
            )
            &&& integer(s) is None && float is Some && not_finite(float->0) ==> v == Json::Null
            &&& integer(s) is None && float is None && s == "true"@ ==> v == Json::Bool(true)
            &&& integer(s) is None && float is None && s == "false"@ ==> v == Json::Bool(false)
            &&& integer(s) is None && float is None && s != "true"@ && s != "false"@ ==> v
                == Json::String(s)
        }),
{
    reveal_strlit("true");
    reveal_strlit("false");
    assert("true"@.len() == 4);
    assert("false"@.len() == 5);
}

/// A text of digits is the integer that they write, and with a minus before them its
/// negative, within the range of 64-bit integers.
pub proof fn law_integers_are_read(digits: Seq<char>)
    requires
        digits.len() > 0,
        all_digits(digits),
    ensures
        integer(digits) == (if digits_value(digits) <= 0x7fff_ffff_ffff_ffff {
            Some(digits_value(digits) as int)
        } else {
            None
        }),
        integer("-"@ + digits) == (if digits_value(digits) <= 0x8000_0000_0000_0000 {
            Some(-(digits_value(digits) as int))
        } else {
            None
        }),
{
    reveal(parsed);
    reveal_strlit("-");
    reveal_strlit("+");
    assert(digit(digits[0]));
    if "-"@.is_prefix_of(digits) {
        assert(digits.subrange(0, 1)[0] == '-');
    }
    if "+"@.is_prefix_of(digits) {
        assert(digits.subrange(0, 1)[0] == '+');
    }
    let s = "-"@ + digits;
    assert(s.subrange(0, 1) =~= "-"@);
    assert(s.skip(1) =~= digits);
}

proof fn lemma_positional_kept(
    words: Seq<Seq<char>>,
    fields: Seq<FieldMeta>,
    floats: Seq<Option<u64>>,
    name: Seq<char>,
    n: int,
)
    requires
        0 <= n <= words.len(),
        forall|j: int|
            n <= j < words.len() && j < fields.len() ==> (#[trigger] fields[j]).name@ != name,
    ensures
        lookup(positional(words, fields, floats), name) == lookup(
            positional(words.take(n), fields, floats),
            name,
        ),
    decreases words.len(),
{
    if n == words.len() {
        assert(words.take(n) =~= words);
    } else {
        let head = words.drop_last();
        let k = words.len() - 1;
        lemma_positional_kept(head, fields, floats, name, n);
        assert(head.take(n) =~= words.take(n));
        if k < fields.len() {
            assert(fields[k].name@ != name);
            crate::table::lemma_lookup_stored(
                positional(head, fields, floats),
                fields[k].name@,
                option_value(words[k], floats[k]),
                name,
            );
        }
    }
}

/// The arguments of a command line go to the fields in their order: the first word to
/// the first field and so on. A field without a word holds nothing, and words without
/// a field go nowhere.
pub proof fn law_words_go_to_fields_in_order(
    words: Seq<Seq<char>>,
    fields: Seq<FieldMeta>,
    floats: Seq<Option<u64>>,
    i: int,
)
    requires
        0 <= i < fields.len(),
        forall|j: int, k: int|
            0 <= j < k < fields.len() ==> (#[trigger] fields[j]).name@ != (
            #[trigger] fields[k]).name@,
    ensures
        lookup(positional(words, fields, floats), fields[i].name@) == (if i < words.len() {
            Some(option_value(words[i], floats[i]))
        } else {
            None
        }),
{
    let name = fields[i].name@;
    if i < words.len() {
        lemma_positional_kept(words, fields, floats, name, i + 1);
        let upto = words.take(i + 1);
        assert(upto.drop_last() =~= words.take(i));
        assert(upto[i] == words[i]);
        crate::table::lemma_lookup_stored(
            positional(upto.drop_last(), fields, floats),
            name,
            option_value(words[i], floats[i]),
            name,
        );
    } else {
        lemma_positional_kept(words, fields, floats, name, 0);
        let none = positional(words.take(0), fields, floats);
        crate::table::lemma_position_from(crate::table::keys(none), name, 0);
    }
}

/// A parameter of a name of its own, with hyphens taken for underscores, is handed over
/// with its value: as an argument where a field of the arguments has that name, and as
/// an option otherwise.
pub proof fn law_params_keep_their_values(
    params: Seq<(Seq<char>, Json)>,
    args: Seq<FieldMeta>,
    i: int,
)
    requires
        0 <= i < params.len(),
        forall|j: int|
            i < j < params.len() ==> recased((#[trigger] params[j]).0, '-', '_') != recased(
                params[i].0,
                '-',
                '_',
            ),
    ensures
        ({
            let key = recased(params[i].0, '-', '_');
            let is_argument = exists|k: int|
                0 <= k < args.len() && (#[trigger] args[k]).name@ == key;
            &&& lookup(chosen_params(params, args, is_argument), key) == Some(params[i].1)
            &&& lookup(chosen_params(params, args, !is_argument), key) is None
        }),
    decreases params.len(),
{
    let key = recased(params[i].0, '-', '_');
    let is_argument = has_field(args, key);
    lemma_not_chosen(params, args, !is_argument, key);
    let head = params.drop_last();
    let last = recased(params.last().0, '-', '_');
    crate::table::lemma_lookup_stored(
        chosen_params(head, args, is_argument),
        last,
        params.last().1,
        key,
    );
    if i < params.len() - 1 {
        assert(params[params.len() - 1] == params.last());
        assert forall|j: int| i < j < head.len() implies recased((#[trigger] head[j]).0, '-', '_')
            != recased(head[i].0, '-', '_') by {
            assert(head[j] == params[j]);
        }
        law_params_keep_their_values(head, args, i);
    }
}

/// A variable of a switch is on for the words that say so; one of a number is the number
/// that it writes, where it writes one, and any other is its text.
pub proof fn law_variables_are_typed(s: Seq<char>, kind: FieldType, float: Option<u64>)
    ensures
        kind is Boolean ==> (env_value(s, kind, float) == Json::Bool(true) <==> s == "1"@ || s
            == "true"@ || s == "yes"@),
        kind is Boolean && s != "1"@ && s != "true"@ && s != "yes"@ ==> env_value(s, kind, float)
            == Json::Bool(false),
        kind is Number && float is None ==> env_value(s, kind, float) == Json::String(s),
        kind is Number ==> (float matches Some(bits) ==> (!not_finite(bits) ==> env_value(
            s,
            kind,
            float,
        ) == Json::Number(Number::Float { bits }))),
        !(kind is Boolean) && !(kind is Number) ==> env_value(s, kind, float) == Json::String(s),
{
}

} // verus!
