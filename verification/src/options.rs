//! The settings of a session, from the command line and the environment.

use vstd::prelude::*;
use vstd::string::*;

use crate::datum::{opt_view, res_view, views};
use crate::json::{bare_object, no_members, with_member, Json, JsonView};
use crate::keyed::{keyed_view, Keyed};
use crate::provider::{OpenAiConfig, OpenAiConfigView};
use crate::text::{
    begins, blank, decimal, decimal_of, is_blank, number_of, parse_number, same_text, starts_with,
    trim, trim_of,
};

verus! {

/// Whether an argument is an option without a value.
pub open spec fn is_flag(argument: Seq<char>) -> bool {
    argument == "--demo"@ || argument == "--no-tools"@ || argument == "--unsafe-local-exec"@
}

/// Whether an argument is an option with a value.
pub open spec fn takes_value(argument: Seq<char>) -> bool {
    argument == "--workspace"@ || argument == "--endpoint"@ || argument == "--model"@ || argument
        == "--request-timeout"@ || argument == "--max-output-tokens"@ || argument
        == "--temperature"@ || argument == "--max-model-iterations"@ || argument
        == "--history-groups"@
}

/// The arguments of the command line.
#[verifier::ext_equal]
pub ghost struct ArgumentsView {
    pub flags: Set<Seq<char>>,
    pub values: Map<Seq<char>, Seq<char>>,
}

/// The arguments of the command line.
#[derive(Debug)]
pub struct Arguments {
    flags: Keyed<bool>,
    values: Keyed<String>,
}

impl View for Arguments {
    type V = ArgumentsView;

    closed spec fn view(&self) -> ArgumentsView {
        ArgumentsView { flags: self.flags@.dom(), values: keyed_view(self.values@) }
    }
}

/// Whether an argument can be the value of an option.
pub open spec fn usable_value(argument: Seq<char>) -> bool {
    !begins(argument, "--"@) && !blank(argument)
}

/// The arguments from `at` on, added to those before, or why they are refused.
pub open spec fn arguments_from(args: Seq<Seq<char>>, at: int, read: ArgumentsView) -> Result<
    ArgumentsView,
    Seq<char>,
>
    decreases args.len() - at,
{
    if at < 0 || at >= args.len() {
        Ok(read)
    } else if is_flag(args[at]) {
        if read.flags.contains(args[at]) {
            Err("duplicate option: "@ + args[at])
        } else {
            arguments_from(
                args,
                at + 1,
                ArgumentsView { flags: read.flags.insert(args[at]), ..read },
            )
        }
    } else if takes_value(args[at]) {
        if at + 1 >= args.len() || !usable_value(args[at + 1]) {
            Err("missing value for "@ + args[at])
        } else if read.values.contains_key(args[at]) {
            Err("duplicate option: "@ + args[at])
        } else {
            arguments_from(
                args,
                at + 2,
                ArgumentsView { values: read.values.insert(args[at], args[at + 1]), ..read },
            )
        }
    } else {
        Err("unknown option: "@ + args[at])
    }
}

/// The arguments of a command line, or why they are refused.
pub open spec fn arguments_of(args: Seq<Seq<char>>) -> Result<ArgumentsView, Seq<char>> {
    arguments_from(args, 0, ArgumentsView { flags: Set::empty(), values: Map::empty() })
}

fn check_flag(argument: &str) -> (yes: bool)
    ensures
        yes == is_flag(argument@),
{
    same_text(argument, "--demo") || same_text(argument, "--no-tools") || same_text(
        argument,
        "--unsafe-local-exec",
    )
}

fn check_option(argument: &str) -> (yes: bool)
    ensures
        yes == takes_value(argument@),
{
    same_text(argument, "--workspace") || same_text(argument, "--endpoint") || same_text(
        argument,
        "--model",
    ) || same_text(argument, "--request-timeout") || same_text(argument, "--max-output-tokens")
        || same_text(argument, "--temperature") || same_text(argument, "--max-model-iterations")
        || same_text(argument, "--history-groups")
}

impl Arguments {
    /// Reads the arguments of a command line.
    pub fn read(args: &Vec<String>) -> (arguments: Result<Self, String>)
        ensures
            res_view(arguments) == arguments_of(views(args@)),
    {
        let ghost all = views(args@);
        let mut flags: Keyed<bool> = Keyed::new();
        let mut values: Keyed<String> = Keyed::new();
        let mut at: usize = 0;
        proof {
            assert(all.len() == args@.len());
            assert(flags@.dom() =~= Set::<Seq<char>>::empty());
            assert(keyed_view(values@) =~= Map::<Seq<char>, Seq<char>>::empty());
        }
        while at < args.len()
            invariant
                at <= args@.len(),
                all == views(args@),
                all.len() == args@.len(),
                arguments_of(all) == arguments_from(
                    all,
                    at as int,
                    (ArgumentsView { flags: flags@.dom(), values: keyed_view(values@) }),
                ),
            decreases args@.len() - at,
        {
            assert(all[at as int] == args@[at as int]@);
            let argument = args[at].as_str();
            if check_flag(argument) {
                if flags.contains(argument) {
                    return Err("duplicate option: ".to_owned().concat(argument));
                }
                let ghost before = flags@.dom();
                let _ = flags.insert(argument.to_owned(), true);
                assert(flags@.dom() =~= before.insert(argument@));
                at = at + 1;
            } else if check_option(argument) {
                if args.len() - at < 2 {
                    return Err("missing value for ".to_owned().concat(argument));
                }
                assert(all[at + 1] == args@[at + 1]@);
                let value = args[at + 1].as_str();
                if starts_with(value, "--") || is_blank(value) {
                    return Err("missing value for ".to_owned().concat(argument));
                }
                if values.contains(argument) {
                    return Err("duplicate option: ".to_owned().concat(argument));
                }
                let ghost before = values@;
                let _ = values.insert(argument.to_owned(), value.to_owned());
                assert(keyed_view(values@) =~= keyed_view(before).insert(argument@, value@));
                at = at + 2;
            } else {
                return Err("unknown option: ".to_owned().concat(argument));
            }
        }
        Ok(Arguments { flags, values })
    }

    fn flag(&self, name: &str) -> (set: bool)
        ensures
            set == self@.flags.contains(name@),
    {
        self.flags.contains(name)
    }

    /// The value of an option: from the command line, or else from the environment.
    pub fn value(&self, environment: &Keyed<String>, option: &str, variable: &str) -> (value: Option<
        String,
    >)
        ensures
            opt_view(value) == setting(
                self@.values,
                keyed_view(environment@),
                option@,
                variable@,
            ),
    {
        match self.values.get(option) {
            Some(value) => {
                let found = value.clone();
                assert(keyed_view(self.values@)[option@] == found@);
                Some(found)
            },
            None => match environment.get(variable) {
                Some(value) => {
                    let found = value.clone();
                    assert(keyed_view(environment@)[variable@] == found@);
                    Some(found)
                },
                None => None,
            },
        }
    }

    /// The temperature that was asked for, as it was written.
    pub fn temperature(&self, environment: &Keyed<String>) -> (text: Option<String>)
        ensures
            opt_view(text) == setting(
                self@.values,
                keyed_view(environment@),
                "--temperature"@,
                "HARNESS_TEMPERATURE"@,
            ),
    {
        self.value(environment, "--temperature", "HARNESS_TEMPERATURE")
    }
}

/// The value of an option: from the command line, or else from the environment.
pub open spec fn setting(
    values: Map<Seq<char>, Seq<char>>,
    environment: Map<Seq<char>, Seq<char>>,
    option: Seq<char>,
    variable: Seq<char>,
) -> Option<Seq<char>> {
    if values.contains_key(option) {
        Some(values[option])
    } else if environment.contains_key(variable) {
        Some(environment[variable])
    } else {
        None
    }
}

/// A number between one and a maximum, or its default.
pub open spec fn bounded_number(
    text: Option<Seq<char>>,
    option: Seq<char>,
    default: nat,
    maximum: nat,
) -> Result<nat, Seq<char>> {
    let value = match text {
        None => Some(default),
        Some(found) => number_of(found, u64::MAX as nat),
    };
    match value {
        None => Err(option + " must be an integer"@),
        Some(number) => if number == 0 || number > maximum {
            Err(option + " must be between 1 and "@ + decimal_of(maximum))
        } else {
            Ok(number)
        },
    }
}

fn read_number(text: Option<String>, option: &str, default: u64, maximum: u64) -> (number: Result<
    u64,
    String,
>)
    ensures
        match number {
            Ok(found) => bounded_number(
                opt_view(text),
                option@,
                default as nat,
                maximum as nat,
            ) == Ok::<nat, Seq<char>>(found as nat) && found <= maximum,
            Err(message) => bounded_number(
                opt_view(text),
                option@,
                default as nat,
                maximum as nat,
            ) == Err::<nat, Seq<char>>(message@),
        },
{
    let value: u64 = match text {
        None => default,
        Some(text) => match parse_number(text.as_str(), u64::MAX) {
            Some(value) => value,
            None => {
                return Err(option.to_owned().concat(" must be an integer"));
            },
        },
    };
    if value == 0 || value > maximum {
        return Err(
            option.to_owned().concat(" must be between 1 and ").concat(decimal(maximum).as_str()),
        );
    }
    Ok(value)
}

/// The settings of a session.
#[derive(Debug)]
pub struct Options {
    pub demo: bool,
    pub no_tools: bool,
    pub unsafe_local: bool,
    pub workspace: Option<String>,
    pub endpoint: String,
    pub model: Option<String>,
    pub request_timeout: u64,
    pub max_output_tokens: u64,
    pub temperature: Option<Json>,
    pub max_model_iterations: usize,
    pub history_groups: usize,
}

/// The model of [`Options`].
#[verifier::ext_equal]
pub ghost struct OptionsView {
    pub demo: bool,
    pub no_tools: bool,
    pub unsafe_local: bool,
    pub workspace: Option<Seq<char>>,
    pub endpoint: Seq<char>,
    pub model: Option<Seq<char>>,
    pub request_timeout: nat,
    pub max_output_tokens: nat,
    pub temperature: Option<JsonView>,
    pub max_model_iterations: nat,
    pub history_groups: nat,
}

impl View for Options {
    type V = OptionsView;

    open spec fn view(&self) -> OptionsView {
        OptionsView {
            demo: self.demo,
            no_tools: self.no_tools,
            unsafe_local: self.unsafe_local,
            workspace: opt_view(self.workspace),
            endpoint: self.endpoint@,
            model: opt_view(self.model),
            request_timeout: self.request_timeout as nat,
            max_output_tokens: self.max_output_tokens as nat,
            temperature: opt_view(self.temperature),
            max_model_iterations: self.max_model_iterations as nat,
            history_groups: self.history_groups as nat,
        }
    }
}

/// The numbers among the settings.
pub open spec fn numbers_of(
    values: Map<Seq<char>, Seq<char>>,
    environment: Map<Seq<char>, Seq<char>>,
) -> Result<(nat, nat, nat, nat), Seq<char>> {
    match bounded_number(
        setting(values, environment, "--request-timeout"@, "HARNESS_REQUEST_TIMEOUT"@),
        "--request-timeout"@,
        120,
        600,
    ) {
        Err(message) => Err(message),
        Ok(timeout) => match bounded_number(
            setting(values, environment, "--max-output-tokens"@, "HARNESS_MAX_OUTPUT_TOKENS"@),
            "--max-output-tokens"@,
            4096,
            131072,
        ) {
            Err(message) => Err(message),
            Ok(tokens) => match bounded_number(
                setting(
                    values,
                    environment,
                    "--max-model-iterations"@,
                    "HARNESS_MAX_MODEL_ITERATIONS"@,
                ),
                "--max-model-iterations"@,
                32,
                128,
            ) {
                Err(message) => Err(message),
                Ok(iterations) => match bounded_number(
                    setting(
                        values,
                        environment,
                        "--history-groups"@,
                        "HARNESS_HISTORY_GROUPS"@,
                    ),
                    "--history-groups"@,
                    200,
                    2000,
                ) {
                    Err(message) => Err(message),
                    Ok(groups) => Ok((timeout, tokens, iterations, groups)),
                },
            },
        },
    }
}

/// The model that was asked for.
pub open spec fn model_of(
    values: Map<Seq<char>, Seq<char>>,
    environment: Map<Seq<char>, Seq<char>>,
) -> Option<Seq<char>> {
    match setting(values, environment, "--model"@, "HARNESS_MODEL"@) {
        Some(model) => if blank(model) {
            None
        } else {
            Some(model)
        },
        None => None,
    }
}

/// The settings of a session, or why they are refused. `temperature` is the temperature that
/// the host read, if there is one and it is finite and between 0 and 2.
pub open spec fn options_of(
    arguments: ArgumentsView,
    environment: Map<Seq<char>, Seq<char>>,
    temperature: Option<JsonView>,
) -> Result<OptionsView, Seq<char>> {
    let values = arguments.values;
    let asked = setting(values, environment, "--temperature"@, "HARNESS_TEMPERATURE"@);
    let model = model_of(values, environment);
    let demo = arguments.flags.contains("--demo"@);
    if asked is Some && temperature is None {
        Err("--temperature must be finite and between 0 and 2"@)
    } else if !demo && model is None {
        Err("set --model, HARNESS_MODEL, or use --demo"@)
    } else {
        match numbers_of(values, environment) {
            Err(message) => Err(message),
            Ok((timeout, tokens, iterations, groups)) => Ok(
                OptionsView {
                    demo,
                    no_tools: arguments.flags.contains("--no-tools"@),
                    unsafe_local: arguments.flags.contains("--unsafe-local-exec"@),
                    workspace: if values.contains_key("--workspace"@) {
                        Some(values["--workspace"@])
                    } else {
                        None
                    },
                    endpoint: match setting(
                        values,
                        environment,
                        "--endpoint"@,
                        "HARNESS_API_URL"@,
                    ) {
                        Some(endpoint) => endpoint,
                        None => "https://api.openai.com/v1/chat/completions"@,
                    },
                    model,
                    request_timeout: timeout,
                    max_output_tokens: tokens,
                    temperature: if asked is Some {
                        temperature
                    } else {
                        None
                    },
                    max_model_iterations: iterations,
                    history_groups: groups,
                },
            ),
        }
    }
}

fn read_numbers(arguments: &Arguments, environment: &Keyed<String>) -> (numbers: Result<
    (u64, u64, u64, u64),
    String,
>)
    ensures
        match numbers {
            Ok((timeout, tokens, iterations, groups)) => numbers_of(
                arguments@.values,
                keyed_view(environment@),
            ) == Ok::<(nat, nat, nat, nat), Seq<char>>(
                (timeout as nat, tokens as nat, iterations as nat, groups as nat),
            ) && iterations <= 128 && groups <= 2000,
            Err(message) => numbers_of(arguments@.values, keyed_view(environment@)) == Err::<
                (nat, nat, nat, nat),
                Seq<char>,
            >(message@),
        },
{
    let timeout: u64 = match read_number(
        arguments.value(environment, "--request-timeout", "HARNESS_REQUEST_TIMEOUT"),
        "--request-timeout",
        120,
        600,
    ) {
        Ok(number) => number,
        Err(message) => {
            return Err(message);
        },
    };
    let tokens: u64 = match read_number(
        arguments.value(environment, "--max-output-tokens", "HARNESS_MAX_OUTPUT_TOKENS"),
        "--max-output-tokens",
        4096,
        131072,
    ) {
        Ok(number) => number,
        Err(message) => {
            return Err(message);
        },
    };
    let iterations: u64 = match read_number(
        arguments.value(environment, "--max-model-iterations", "HARNESS_MAX_MODEL_ITERATIONS"),
        "--max-model-iterations",
        32,
        128,
    ) {
        Ok(number) => number,
        Err(message) => {
            return Err(message);
        },
    };
    let groups: u64 = match read_number(
        arguments.value(environment, "--history-groups", "HARNESS_HISTORY_GROUPS"),
        "--history-groups",
        200,
        2000,
    ) {
        Ok(number) => number,
        Err(message) => {
            return Err(message);
        },
    };
    Ok((timeout, tokens, iterations, groups))
}

impl Options {
    /// The settings that the command line and the environment ask for.
    pub fn parse(
        arguments: &Arguments,
        environment: &Keyed<String>,
        temperature: Option<Json>,
    ) -> (options: Result<Self, String>)
        ensures
            res_view(options) == options_of(
                arguments@,
                keyed_view(environment@),
                opt_view(temperature),
            ),
    {
        let asked = arguments.temperature(environment);
        if asked.is_some() && temperature.is_none() {
            return Err("--temperature must be finite and between 0 and 2".to_owned());
        }
        let demo = arguments.flag("--demo");
        let mut model = arguments.value(environment, "--model", "HARNESS_MODEL");
        let unnamed = match &model {
            Some(name) => is_blank(name.as_str()),
            None => true,
        };
        if unnamed {
            model = None;
        }
        if !demo && unnamed {
            return Err("set --model, HARNESS_MODEL, or use --demo".to_owned());
        }
        let (request_timeout, max_output_tokens, iterations, groups) = match read_numbers(
            arguments,
            environment,
        ) {
            Ok(numbers) => numbers,
            Err(message) => {
                return Err(message);
            },
        };
        let workspace = match arguments.values.get("--workspace") {
            Some(workspace) => {
                let found = workspace.clone();
                assert(arguments@.values["--workspace"@] == found@);
                Some(found)
            },
            None => None,
        };
        let endpoint = match arguments.value(environment, "--endpoint", "HARNESS_API_URL") {
            Some(endpoint) => endpoint,
            None => "https://api.openai.com/v1/chat/completions".to_owned(),
        };
        let temperature = match asked {
            Some(_) => temperature,
            None => None,
        };
        Ok(
            Options {
                demo,
                no_tools: arguments.flag("--no-tools"),
                unsafe_local: arguments.flag("--unsafe-local-exec"),
                workspace,
                endpoint,
                model,
                request_timeout,
                max_output_tokens,
                temperature,
                max_model_iterations: iterations as usize,
                history_groups: groups as usize,
            },
        )
    }

    /// How the provider is asked under these settings.
    pub fn provider_config(&self, api_key: Option<String>) -> (config: OpenAiConfig)
        ensures
            config@ == provider_settings(self@, opt_view(api_key)),
    {
        let model = match &self.model {
            Some(model) => model.clone(),
            None => "demo".to_owned(),
        };
        let mut extra_body = with_member(
            no_members(),
            "max_completion_tokens",
            Json::Unsigned(self.max_output_tokens),
        );
        match &self.temperature {
            Some(temperature) => {
                extra_body = with_member(extra_body, "temperature", temperature.clone());
            },
            None => {},
        }
        let base = OpenAiConfig::new(self.endpoint.clone(), model);
        OpenAiConfig { api_key, timeout_seconds: self.request_timeout, extra_body, ..base }
    }
}

/// How the provider is asked under these settings.
pub open spec fn provider_settings(
    options: OptionsView,
    api_key: Option<Seq<char>>,
) -> OpenAiConfigView {
    let capped = bare_object().insert(
        "max_completion_tokens"@,
        JsonView::Integer(options.max_output_tokens as int),
    );
    OpenAiConfigView {
        endpoint: options.endpoint,
        model: match options.model {
            Some(model) => model,
            None => "demo"@,
        },
        api_key,
        organization: None,
        timeout_seconds: options.request_timeout as u64,
        extra_body: match options.temperature {
            Some(temperature) => capped.insert("temperature"@, temperature),
            None => capped,
        },
    }
}

/// The key that the provider is asked with, without the whitespace around it. The first
/// variable that is set counts.
pub fn api_key(environment: &Keyed<String>) -> (key: Option<String>)
    ensures
        opt_view(key) == (if environment@.contains_key("HARNESS_API_KEY"@) {
            Some(trim_of(environment@["HARNESS_API_KEY"@]@))
        } else if environment@.contains_key("OPENAI_API_KEY"@) {
            Some(trim_of(environment@["OPENAI_API_KEY"@]@))
        } else {
            None
        }),
{
    match environment.get("HARNESS_API_KEY") {
        Some(key) => Some(trim(key.as_str())),
        None => match environment.get("OPENAI_API_KEY") {
            Some(key) => Some(trim(key.as_str())),
            None => None,
        },
    }
}

/// The argument behind the first occurrence of a name, from `at` on.
pub open spec fn value_behind(args: Seq<Seq<char>>, name: Seq<char>, at: int) -> Option<Seq<char>>
    decreases args.len() - at,
{
    if at < 0 || at + 1 >= args.len() {
        None
    } else if args[at] == name {
        Some(args[at + 1])
    } else {
        value_behind(args, name, at + 1)
    }
}

/// The argument behind the first occurrence of a name.
pub fn argument_value(args: &Vec<String>, name: &str) -> (value: Option<String>)
    ensures
        opt_view(value) == value_behind(views(args@), name@, 0),
{
    let ghost all = views(args@);
    let mut at: usize = 0;
    while at < args.len() && args.len() - at >= 2
        invariant
            at <= args@.len(),
            all == views(args@),
            all.len() == args@.len(),
            value_behind(all, name@, 0) == value_behind(all, name@, at as int),
        decreases args@.len() - at,
    {
        assert(all[at as int] == args@[at as int]@);
        assert(all[at + 1] == args@[at + 1]@);
        if same_text(args[at].as_str(), name) {
            return Some(args[at + 1].clone());
        }
        at = at + 1;
    }
    None
}

/// The command line takes precedence over the environment: a value that is given there is
/// the setting, whatever the environment holds.
pub proof fn law_command_line_takes_precedence(
    values: Map<Seq<char>, Seq<char>>,
    environment: Map<Seq<char>, Seq<char>>,
    option: Seq<char>,
    variable: Seq<char>,
)
    requires
        values.contains_key(option),
    ensures
        setting(values, environment, option, variable) == Some(values[option]),
{
}

/// Accepted settings are bounded, whatever was asked for.
pub proof fn law_accepted_settings_are_bounded(
    arguments: ArgumentsView,
    environment: Map<Seq<char>, Seq<char>>,
    temperature: Option<JsonView>,
)
    ensures
        options_of(arguments, environment, temperature) matches Ok(options) ==> 1
            <= options.request_timeout <= 600 && 1 <= options.max_output_tokens <= 131072 && 1
            <= options.max_model_iterations <= 128 && 1 <= options.history_groups <= 2000 && (
        options.demo || options.model is Some),
{
}

} // verus!
