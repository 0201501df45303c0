use dsrust::example::Value;
use dsrust::lm::token_limit::{on_the_wire, TokenLimitField, TokenLimitRule};
use dsrust::lm::turn::{messages_of, ChatTurn, Content, LmPart, Role};
use dsrust::lm::usage::{record, scoped, track, Count, Ledger, LmUsage, UsageTracker};

#[test]
fn the_openai_rule_asks_the_family_and_the_always_rule_does_not() {
    for model in ["o3", "gpt-5", "openai/o1-mini"] {
        assert_eq!(
            TokenLimitRule::ByOpenAiModelFamily.field_for(model),
            TokenLimitField::MaxCompletionTokens,
            "{model} is a reasoning model at OpenAI"
        );
        assert_eq!(
            TokenLimitRule::AlwaysMaxTokens.field_for(model),
            TokenLimitField::MaxTokens,
            "{model} is unchanged away from OpenAI"
        );
    }
}

#[test]
fn the_two_rules_disagree_about_a_reasoning_model() {
    let model = "openai/gpt-5";
    assert_ne!(
        TokenLimitRule::ByOpenAiModelFamily.field_for(model),
        TokenLimitRule::AlwaysMaxTokens.field_for(model)
    );
}

#[test]
fn a_chat_model_takes_max_tokens_under_either_rule() {
    for rule in [
        TokenLimitRule::ByOpenAiModelFamily,
        TokenLimitRule::AlwaysMaxTokens,
    ] {
        assert_eq!(rule.field_for("gpt-4o-mini"), TokenLimitField::MaxTokens);
    }
}

#[test]
fn each_field_names_the_key_it_travels_under() {
    assert_eq!(TokenLimitField::MaxTokens.wire_name(), "max_tokens");
    assert_eq!(
        TokenLimitField::MaxCompletionTokens.wire_name(),
        "max_completion_tokens"
    );
}

#[test]
fn a_family_is_told_by_its_whole_name() {
    for model in ["o1", "O3-Mini", "o4-mini-2025-04-16", "azure/openai/gpt-5-nano", "o3-pro"] {
        assert!(on_the_wire(model), "{model}");
    }
    for model in ["o2", "o3-max", "o1-mini-2025", "gpt-5-chat", "gpt-5x", "gpt-50", "", "o3/"] {
        assert!(!on_the_wire(model), "{model}");
    }
}

#[test]
fn a_render_becomes_a_system_message_then_its_turns() {
    let messages = messages_of(
        "Be concise.",
        &vec![
            ChatTurn::user(Content::Text("Why?".to_owned())),
            ChatTurn::assistant(Content::Text("Because.".to_owned())),
        ],
    );

    assert_eq!(messages.len(), 3);
    assert_eq!(messages[0].role, "system");
    assert_eq!(messages[0].text(), Some("Be concise."));
    assert_eq!(messages[1].role, "user");
    assert_eq!(messages[2].role, "assistant");
}

#[test]
fn an_empty_system_still_leads_with_a_system_message() {
    let messages = messages_of("", &vec![]);
    assert_eq!(messages.len(), 1);
    assert_eq!(messages[0].role, "system");
    assert_eq!(messages[0].text(), Some(""));
}

fn block(json: &str) -> Value {
    Value::Other { json: json.to_owned(), repr: json.to_owned() }
}

#[test]
fn a_multimodal_turn_reads_its_blocks_back_to_parts() {
    let turns = vec![ChatTurn {
        role: Role::User,
        content: Content::Blocks(vec![
            block(r#"{ "type": "text", "text": "look:" }"#),
            block(r#"{ "type": "image_url", "image_url": { "url": "u" } }"#),
        ]),
    }];
    assert_eq!(messages_of("", &turns)[1].parts.len(), 2);
}

#[test]
fn a_tools_turn_keeps_its_parts() {
    let turns = vec![ChatTurn {
        role: Role::Tool,
        content: Content::Parts(vec![LmPart::Text("4".to_owned())]),
    }];
    let messages = messages_of("s", &turns);
    assert_eq!(messages[1].role, "tool");
    assert_eq!(messages[1].text(), Some("4"));
}

fn usage(input_tokens: u32, output_tokens: u32) -> LmUsage {
    LmUsage::counted(input_tokens, output_tokens)
}

fn same(a: &LmUsage, b: &LmUsage) -> bool {
    a.input_tokens == b.input_tokens
        && a.output_tokens == b.output_tokens
        && a.details == b.details
}

#[test]
fn a_scope_totals_every_call_charged_to_it() {
    let mut ledger = Ledger::default();
    track(&mut ledger);
    record(&mut ledger, "anthropic/haiku", Some(usage(10, 4)));
    record(&mut ledger, "anthropic/haiku", Some(usage(6, 2)));

    let counting = ledger.installed.as_ref().expect("counting");
    assert!(same(&counting.total(), &usage(16, 6)));
    assert_eq!(counting.total().total(), Some(22));
}

#[test]
fn each_model_is_totalled_on_its_own() {
    let mut ledger = Ledger::default();
    track(&mut ledger);
    record(&mut ledger, "openai/gpt-4o-mini", Some(usage(10, 4)));
    record(&mut ledger, "anthropic/haiku", Some(usage(100, 40)));

    let counting = ledger.installed.as_ref().expect("counting");
    let by_model = counting.tracker().by_model();
    assert_eq!(by_model.len(), 2);
    assert_eq!(by_model[0].0, "anthropic/haiku");
    assert!(same(&by_model[0].1, &usage(100, 40)));
    assert_eq!(by_model[1].0, "openai/gpt-4o-mini");
    assert!(same(&by_model[1].1, &usage(10, 4)));
    assert!(same(&counting.total(), &usage(110, 44)), "and summed across both");
}

#[test]
fn a_call_outside_every_scope_is_charged_to_nothing() {
    let mut ledger = Ledger::default();
    record(&mut ledger, "anthropic/haiku", Some(usage(999, 999)));

    track(&mut ledger);
    let counting = ledger.installed.as_ref().expect("counting");
    assert!(counting.tracker().is_empty(), "the out-of-scope call charged nothing");
    record(&mut ledger, "anthropic/haiku", Some(usage(1, 1)));
    let counting = ledger.installed.as_ref().expect("counting");
    assert!(same(&counting.total(), &usage(1, 1)));
}

#[test]
fn a_dropped_scope_stops_counting() {
    let mut ledger = Ledger::default();
    track(&mut ledger);
    record(&mut ledger, "anthropic/haiku", Some(usage(5, 5)));
    let first = ledger.untrack().expect("was counting");
    assert!(same(&first.total(), &usage(5, 5)));

    record(&mut ledger, "anthropic/haiku", Some(usage(70, 70)));

    track(&mut ledger);
    let second = ledger.untrack().expect("was counting");
    assert!(second.tracker().is_empty(), "a new scope starts at nothing");
}

#[test]
fn dropping_the_guard_clears_the_installed_tracker() {
    let mut ledger = Ledger::default();
    {
        track(&mut ledger);
        record(&mut ledger, "anthropic/haiku", Some(usage(5, 5)));
        let counting = ledger.untrack().expect("was counting");
        assert!(same(&counting.total(), &usage(5, 5)));
    }

    assert!(ledger.installed.is_none(), "the guard took the tracker down with it");
}

#[test]
fn a_tracker_that_has_been_charged_is_not_empty() {
    let mut tracker = UsageTracker::default();
    assert!(tracker.is_empty(), "nothing charged yet");
    tracker.add("anthropic/haiku", usage(1, 1));
    assert!(!tracker.is_empty(), "and not once something has been");
}

#[test]
fn a_call_that_spent_nothing_is_not_charged() {
    let mut ledger = Ledger::default();
    track(&mut ledger);
    record(&mut ledger, "anthropic/haiku", None);
    assert!(ledger.installed.as_ref().expect("counting").tracker().is_empty());
}

#[test]
fn interleaved_scopes_never_share_usage() {
    let mut ledger = Ledger::default();
    let mut first = Some(scoped());
    let mut second = Some(scoped());

    ledger.exchange(&mut first);
    record(&mut ledger, "first", Some(usage(2, 3)));
    ledger.exchange(&mut first);
    ledger.exchange(&mut second);
    record(&mut ledger, "second", Some(usage(11, 13)));
    ledger.exchange(&mut second);
    ledger.exchange(&mut first);
    record(&mut ledger, "first", Some(usage(5, 7)));
    ledger.exchange(&mut first);
    ledger.exchange(&mut second);
    record(&mut ledger, "second", Some(usage(17, 19)));
    ledger.exchange(&mut second);

    let first = first.expect("handed back");
    let second = second.expect("handed back");
    assert!(same(&first.total(), &usage(7, 10)));
    assert!(same(&second.total(), &usage(28, 32)));
    assert_eq!(first.tracker().by_model().len(), 1);
    assert_eq!(second.tracker().by_model().len(), 1);
}

#[test]
fn a_scope_shields_the_process_from_its_charges() {
    let mut ledger = Ledger::default();
    track(&mut ledger);
    let mut scope = Some(scoped());
    ledger.exchange(&mut scope);
    record(&mut ledger, "m", Some(usage(9, 9)));
    ledger.exchange(&mut scope);
    assert_eq!(scope.expect("handed back").total().input_tokens, Some(9));
    assert_eq!(ledger.untrack().expect("counting").total().input_tokens, None);
}

#[test]
fn every_counter_is_carried_and_none_overflows() {
    let mut tracker = UsageTracker::default();
    let reasoning = |tokens: u64| LmUsage {
        input_tokens: Some(u64::MAX - 1),
        output_tokens: None,
        details: vec![("reasoning_tokens".to_owned(), Count { tokens })],
    };
    tracker.add("m", reasoning(7));
    tracker.add("m", reasoning(8));
    let total = tracker.total();
    assert_eq!(total.input_tokens, Some(u64::MAX));
    assert_eq!(total.output_tokens, None);
    assert_eq!(total.details, vec![("reasoning_tokens".to_owned(), Count { tokens: 15 })]);
    assert_eq!(usage(3, 4).total(), Some(7));
    assert_eq!(LmUsage::default().total(), None);
}

#[test]
fn the_total_is_the_sum_of_every_charge_counter_by_counter() {
    let spent = |reasoning: u64, cached: Option<u64>| {
        let mut details = vec![("reasoning_tokens".to_owned(), Count { tokens: reasoning })];
        if let Some(tokens) = cached {
            details.push(("cached_tokens".to_owned(), Count { tokens }));
        }
        LmUsage { input_tokens: Some(1), output_tokens: Some(2), details }
    };
    let mut tracker = UsageTracker::default();
    assert!(same(&tracker.total(), &LmUsage::default()), "nothing was charged");
    tracker.add("judge", spent(3, None));
    tracker.add("draft", spent(5, Some(11)));
    tracker.add("judge", spent(7, Some(13)));
    let total = tracker.total();
    assert_eq!((total.input_tokens, total.output_tokens), (Some(3), Some(6)));
    let counter = |name: &str| total.details.iter().find(|(held, _)| held == name).map(|(_, c)| c.tokens);
    assert_eq!(counter("reasoning_tokens"), Some(15));
    assert_eq!(counter("cached_tokens"), Some(24));
    assert_eq!(tracker.by_model().len(), 2, "reading the total changes nothing");
}
