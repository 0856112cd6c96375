use semigroup::coalesced::extension::Extension;
use semigroup::Coalesced;

#[test]
fn test_coalesced_prior_history() {
    let from_file = Coalesced::new_prior(Some("file"));
    let from_env = Coalesced::new_prior(Some("env"));
    let from_cli = Coalesced::new_prior(Some("cli"));

    let config = from_file.extend_prior(from_env).extend_prior(from_cli);
    assert_eq!(config.value().clone().unwrap(), "cli");
    assert_eq!(
        config.entries().to_vec(),
        vec![
            Extension::new(Some("file")),
            Extension::new(Some("env")),
            Extension::new(Some("cli")),
        ],
    );
}

#[test]
fn test_coalesced_posterior_history() {
    let from_file = Coalesced::new_posterior(Some("file"));
    let from_env = Coalesced::new_posterior(Some("env"));
    let from_cli = Coalesced::new_posterior(Some("cli"));

    let config = from_file
        .extend_posterior(from_env)
        .extend_posterior(from_cli);
    assert_eq!(config.value().clone().unwrap(), "cli");
    assert_eq!(
        config.entries().to_vec(),
        vec![
            Extension::new(Some("cli")),
            Extension::new(Some("env")),
            Extension::new(Some("file")),
        ],
    );
}

#[test]
fn test_coalesced_switch_prior_to_posterior() {
    let from_file = Coalesced::new_prior(Some("file"));
    let from_env = Coalesced::new_prior(Some("env"));
    let from_cli = Coalesced::new_prior(Some("cli"));

    let config = from_file
        .extend_posterior(from_env)
        .extend_posterior(from_cli);
    assert_eq!(config.value().clone().unwrap(), "file");
    assert_eq!(
        config.entries().to_vec(),
        vec![
            Extension::new(Some("cli")),
            Extension::new(Some("env")),
            Extension::new(Some("file")),
        ],
    );
    let config_posterior = config.posterior();
    assert_eq!(config_posterior.value().clone().unwrap(), "cli");
    assert_eq!(
        config_posterior.entries().to_vec(),
        vec![
            Extension::new(Some("cli")),
            Extension::new(Some("env")),
            Extension::new(Some("file")),
        ],
    );
}

#[test]
fn test_coalesced_switch_posterior_to_prior() {
    let from_file = Coalesced::new_posterior(Some("file"));
    let from_env = Coalesced::new_posterior(Some("env"));
    let from_cli = Coalesced::new_posterior(Some("cli"));

    let config = from_file.extend_prior(from_env).extend_prior(from_cli);
    assert_eq!(config.value().clone().unwrap(), "file");
    assert_eq!(
        config.entries().to_vec(),
        vec![
            Extension::new(Some("file")),
            Extension::new(Some("env")),
            Extension::new(Some("cli")),
        ],
    );
    let config_prior = config.prior();
    assert_eq!(config_prior.value().clone().unwrap(), "cli");
    assert_eq!(
        config_prior.entries().to_vec(),
        vec![
            Extension::new(Some("file")),
            Extension::new(Some("env")),
            Extension::new(Some("cli")),
        ],
    );
}

#[test]
fn test_coalesced_complex_prior_posterior() {
    let first = Coalesced::new_prior(None);
    let second = Coalesced::new_prior(Some(2));
    let third = Coalesced::new_prior(Some(3));
    let four = Coalesced::new_prior(None);
    let five = Coalesced::new_prior(Some(5));
    let six = Coalesced::new_prior(None);

    let coalesced = first
        .extend_prior(second)
        .extend_prior(third)
        .extend_prior(four)
        .extend_prior(five)
        .extend_prior(six);

    assert_eq!(coalesced.value().clone().unwrap(), 5);
    assert_eq!(
        coalesced.entries().to_vec(),
        vec![
            Extension::new(None),
            Extension::new(Some(2)),
            Extension::new(Some(3)),
            Extension::new(None),
            Extension::new(Some(5)),
            Extension::new(None),
        ],
    );

    let coalesced = coalesced.posterior();
    assert_eq!(coalesced.value().clone().unwrap(), 2);
    assert_eq!(
        coalesced.entries().to_vec(),
        vec![
            Extension::new(None),
            Extension::new(Some(2)),
            Extension::new(Some(3)),
            Extension::new(None),
            Extension::new(Some(5)),
            Extension::new(None),
        ],
    );
}

#[test]
fn test_coalesced_access() {
    let single = Coalesced::new_prior_with(Some(7), "the-extension");
    assert_eq!(single.access(), &Extension::new_with(Some(7), "the-extension"));
    assert_eq!(single.extension(), &"the-extension");
    let relabeled = single.set_extension(42);
    assert_eq!(relabeled.clone().into_extension(), 42);
    assert_eq!(relabeled.clone().into_value(), Some(7));

    let multi = Coalesced::new_prior(Some(1)).extend_prior(Coalesced::new_prior(None));
    assert_eq!(multi.value(), &Some(1));
    let single_again = multi.into_single();
    assert_eq!(single_again.entries().len(), 1);
    assert_eq!(single_again.access_owned(), Extension::new(Some(1)));
}

#[test]
fn test_coalesced_mutation() {
    let mut single = Coalesced::new_prior_with(Some(7), "label");
    *single.value_mut() = Some(8);
    assert_eq!(single.value(), &Some(8));
    *single.extension_mut() = "relabeled";
    assert_eq!(single.extension(), &"relabeled");
    single.access_mut().value = None;
    assert_eq!(single.value(), &None);
    assert!(single.is_wf());
}
