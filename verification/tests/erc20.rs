use amm::erc20::{Approval, Erc20, Error, Event, Transfer};
use amm::types::{Address, Balance, U256};

const NAME: &str = "CasperCoin";
const SYMBOL: &str = "CSPR";
const DECIMALS: u8 = 18;
const INITIAL_SUPPLY: u128 = 10_000_000u128;

fn get_account(n: u64) -> Address {
    Address::new(n + 1)
}

fn setup() -> Erc20 {
    Erc20::init(
        &get_account(0),
        String::from(NAME),
        String::from(SYMBOL),
        DECIMALS,
        &Balance::from_u128(INITIAL_SUPPLY),
    )
}

fn last_events(erc20: &Erc20, n: usize) -> Vec<Event> {
    let events = erc20.events();
    events[events.len() - n..].to_vec()
}

fn sum_of_balances(erc20: &Erc20, accounts: &[Address]) -> u128 {
    let mut sum: u128 = 0;
    for a in accounts {
        let (w0, w1, w2, w3) = erc20.balance_of(a).to_words();
        assert_eq!((w2, w3), (0, 0));
        sum += (w0 as u128) + ((w1 as u128) << 64);
    }
    sum
}

#[test]
fn initialization() {
    let erc20 = setup();

    assert_eq!(&erc20.symbol(), SYMBOL);
    assert_eq!(&erc20.name(), NAME);
    assert_eq!(erc20.decimals(), DECIMALS);
    assert_eq!(erc20.total_supply(), Balance::from_u128(INITIAL_SUPPLY));
    assert_eq!(
        last_events(&erc20, 1),
        vec![Event::Transfer(Transfer {
            from: None,
            to: Some(get_account(0)),
            amount: Balance::from_u128(INITIAL_SUPPLY)
        })]
    );
}

#[test]
fn transfer_works() {
    let mut erc20 = setup();
    let (sender, recipient) = (get_account(0), get_account(1));
    let amount = Balance::from_u128(1000u128);

    assert_eq!(erc20.transfer(&sender, &recipient, &amount), Ok(()));

    assert_eq!(
        erc20.balance_of(&sender),
        Balance::from_u128(INITIAL_SUPPLY - 1000u128)
    );
    assert_eq!(erc20.balance_of(&recipient), amount);
    assert_eq!(
        last_events(&erc20, 1),
        vec![Event::Transfer(Transfer {
            from: Some(sender),
            to: Some(recipient),
            amount
        })]
    );
}

#[test]
fn transfer_error() {
    let mut erc20 = setup();
    let (sender, recipient) = (get_account(0), get_account(1));
    let amount = Balance::from_u128(INITIAL_SUPPLY + 1);

    assert_eq!(
        erc20.transfer(&sender, &recipient, &amount),
        Err(Error::InsufficientBalance)
    );
}

#[test]
fn transfer_from_and_approval_work() {
    let mut erc20 = setup();
    let (owner, recipient, spender) = (get_account(0), get_account(1), get_account(2));
    let approved_amount = Balance::from_u128(3_000);
    let transfer_amount = Balance::from_u128(1_000);

    // Owner approves Spender.
    erc20.approve(&owner, &spender, &approved_amount);

    // Allowance was recorded.
    assert_eq!(erc20.allowance(&owner, &spender), approved_amount);
    assert_eq!(
        last_events(&erc20, 1),
        vec![Event::Approval(Approval {
            owner,
            spender,
            value: approved_amount
        })]
    );

    // Spender transfers tokens from Owner to Recipient.
    assert_eq!(
        erc20.transfer_from(&spender, &owner, &recipient, &transfer_amount),
        Ok(())
    );

    // Tokens are transferred and allowance decremented.
    assert_eq!(
        erc20.balance_of(&owner),
        Balance::from_u128(INITIAL_SUPPLY - 1_000)
    );
    assert_eq!(erc20.balance_of(&recipient), transfer_amount);
    assert_eq!(
        last_events(&erc20, 2),
        vec![
            Event::Approval(Approval {
                owner,
                spender,
                value: Balance::from_u128(3_000 - 1_000)
            }),
            Event::Transfer(Transfer {
                from: Some(owner),
                to: Some(recipient),
                amount: transfer_amount
            })
        ]
    );

    let kinds = last_events(&erc20, 2);
    assert!(matches!(kinds[0], Event::Approval(_)));
    assert!(matches!(kinds[1], Event::Transfer(_)));
}

#[test]
fn transfer_from_error() {
    let mut erc20 = setup();
    let (owner, spender) = (get_account(0), get_account(1));
    let amount = Balance::from_u128(1_000);

    assert_eq!(
        erc20.transfer_from(&spender, &owner, &spender, &amount),
        Err(Error::InsufficientAllowance)
    );
}

#[test]
fn init_without_supply_mints_nothing() {
    let erc20 = Erc20::init(
        &get_account(0),
        String::from("TOKEN"),
        String::from("TKN"),
        18u8,
        &Balance::from_u128(0),
    );
    assert_eq!(erc20.total_supply(), U256::zero());
    assert_eq!(erc20.balance_of(&get_account(0)), U256::zero());
    assert!(erc20.events().is_empty());
}

#[test]
fn unknown_accounts_read_as_zero() {
    let erc20 = setup();
    assert_eq!(erc20.balance_of(&get_account(7)), U256::zero());
    assert_eq!(erc20.allowance(&get_account(7), &get_account(8)), U256::zero());
    assert_eq!(erc20.allowance(&get_account(0), &get_account(8)), U256::zero());
}

#[test]
fn mint_adds_to_balance_and_supply() {
    let mut erc20 = setup();
    let user = get_account(1);
    erc20.mint(&user, &Balance::from_u128(5));
    erc20.mint(&user, &Balance::from_u128(7));
    assert_eq!(erc20.balance_of(&user), Balance::from_u128(12));
    assert_eq!(erc20.total_supply(), Balance::from_u128(INITIAL_SUPPLY + 12));
    assert_eq!(
        last_events(&erc20, 1),
        vec![Event::Transfer(Transfer {
            from: None,
            to: Some(user),
            amount: Balance::from_u128(7)
        })]
    );
}

#[test]
fn mint_of_zero_is_valid() {
    let mut erc20 = setup();
    let user = get_account(1);
    let before = erc20.events().len();
    erc20.mint(&user, &Balance::from_u128(0));
    assert_eq!(erc20.balance_of(&user), U256::zero());
    assert_eq!(erc20.total_supply(), Balance::from_u128(INITIAL_SUPPLY));
    assert_eq!(erc20.events().len(), before + 1);
}

#[test]
fn mint_carries_across_words() {
    let mut erc20 = Erc20::init(
        &get_account(0),
        String::from("TOKEN"),
        String::from("TKN"),
        18u8,
        &Balance::from_u128(u128::MAX),
    );
    erc20.mint(&get_account(0), &Balance::from_u128(1));
    assert_eq!(erc20.total_supply(), U256::from_words(0, 0, 1, 0));
    assert_eq!(erc20.balance_of(&get_account(0)), U256::from_words(0, 0, 1, 0));
    assert_eq!(erc20.burn(&get_account(0), &Balance::from_u128(1)), Ok(()));
    assert_eq!(erc20.total_supply(), Balance::from_u128(u128::MAX));
}

#[test]
fn burn_takes_from_balance_and_supply() {
    let mut erc20 = setup();
    let owner = get_account(0);
    assert_eq!(erc20.burn(&owner, &Balance::from_u128(4_000_000)), Ok(()));
    assert_eq!(erc20.balance_of(&owner), Balance::from_u128(6_000_000));
    assert_eq!(erc20.total_supply(), Balance::from_u128(6_000_000));
    assert_eq!(
        last_events(&erc20, 1),
        vec![Event::Transfer(Transfer {
            from: Some(owner),
            to: None,
            amount: Balance::from_u128(4_000_000)
        })]
    );
}

#[test]
fn burn_of_more_than_held_is_refused() {
    let mut erc20 = setup();
    let other = get_account(1);
    let before = erc20.events().len();
    assert_eq!(
        erc20.burn(&other, &Balance::from_u128(1)),
        Err(Error::InsufficientBalance)
    );
    assert_eq!(erc20.total_supply(), Balance::from_u128(INITIAL_SUPPLY));
    assert_eq!(erc20.events().len(), before);
}

#[test]
fn transfer_to_self_keeps_balance() {
    let mut erc20 = setup();
    let owner = get_account(0);
    assert_eq!(
        erc20.transfer(&owner, &owner, &Balance::from_u128(INITIAL_SUPPLY)),
        Ok(())
    );
    assert_eq!(erc20.balance_of(&owner), Balance::from_u128(INITIAL_SUPPLY));
    assert_eq!(erc20.total_supply(), Balance::from_u128(INITIAL_SUPPLY));
}

#[test]
fn transfer_to_self_beyond_balance_is_refused() {
    let mut erc20 = setup();
    let owner = get_account(0);
    assert_eq!(
        erc20.transfer(&owner, &owner, &Balance::from_u128(INITIAL_SUPPLY + 1)),
        Err(Error::InsufficientBalance)
    );
    assert_eq!(erc20.balance_of(&owner), Balance::from_u128(INITIAL_SUPPLY));
}

#[test]
fn refused_transfer_changes_nothing() {
    let mut erc20 = setup();
    let (sender, recipient) = (get_account(1), get_account(2));
    let before = erc20.events().len();
    assert_eq!(
        erc20.transfer(&sender, &recipient, &Balance::from_u128(1)),
        Err(Error::InsufficientBalance)
    );
    assert_eq!(erc20.balance_of(&sender), U256::zero());
    assert_eq!(erc20.balance_of(&recipient), U256::zero());
    assert_eq!(erc20.events().len(), before);
}

#[test]
fn approve_overwrites() {
    let mut erc20 = setup();
    let (owner, spender) = (get_account(0), get_account(1));
    erc20.approve(&owner, &spender, &Balance::from_u128(3_000));
    erc20.approve(&owner, &spender, &Balance::from_u128(10));
    assert_eq!(erc20.allowance(&owner, &spender), Balance::from_u128(10));
    assert_eq!(erc20.allowance(&spender, &owner), U256::zero());
}

#[test]
fn allowances_of_different_pairs_are_apart() {
    let mut erc20 = setup();
    let (a, b, c) = (Address::new(1), Address::new(2), Address::new(u64::MAX));
    erc20.approve(&a, &b, &Balance::from_u128(1));
    erc20.approve(&b, &a, &Balance::from_u128(2));
    erc20.approve(&c, &c, &Balance::from_u128(3));
    erc20.approve(&a, &c, &Balance::from_u128(4));
    erc20.approve(&c, &a, &Balance::from_u128(5));
    assert_eq!(erc20.allowance(&a, &b), Balance::from_u128(1));
    assert_eq!(erc20.allowance(&b, &a), Balance::from_u128(2));
    assert_eq!(erc20.allowance(&c, &c), Balance::from_u128(3));
    assert_eq!(erc20.allowance(&a, &c), Balance::from_u128(4));
    assert_eq!(erc20.allowance(&c, &a), Balance::from_u128(5));
}

#[test]
fn transfer_from_lowers_allowance_by_the_amount() {
    let mut erc20 = setup();
    let (owner, recipient, spender, other) =
        (get_account(0), get_account(1), get_account(2), get_account(3));
    erc20.approve(&owner, &spender, &Balance::from_u128(3_000));
    erc20.approve(&owner, &other, &Balance::from_u128(500));
    assert_eq!(
        erc20.transfer_from(&spender, &owner, &recipient, &Balance::from_u128(1_200)),
        Ok(())
    );
    assert_eq!(erc20.allowance(&owner, &spender), Balance::from_u128(1_800));
    assert_eq!(erc20.allowance(&owner, &other), Balance::from_u128(500));
    assert_eq!(
        erc20.transfer_from(&spender, &owner, &recipient, &Balance::from_u128(1_801)),
        Err(Error::InsufficientAllowance)
    );
    assert_eq!(erc20.allowance(&owner, &spender), Balance::from_u128(1_800));
    assert_eq!(erc20.balance_of(&recipient), Balance::from_u128(1_200));
}

#[test]
fn transfer_from_beyond_balance_keeps_allowance() {
    let mut erc20 = setup();
    let (owner, recipient, spender) = (get_account(1), get_account(2), get_account(3));
    erc20.mint(&owner, &Balance::from_u128(10));
    erc20.approve(&owner, &spender, &Balance::from_u128(100));
    let before = erc20.events().len();
    assert_eq!(
        erc20.transfer_from(&spender, &owner, &recipient, &Balance::from_u128(11)),
        Err(Error::InsufficientBalance)
    );
    assert_eq!(erc20.allowance(&owner, &spender), Balance::from_u128(100));
    assert_eq!(erc20.balance_of(&owner), Balance::from_u128(10));
    assert_eq!(erc20.balance_of(&recipient), U256::zero());
    assert_eq!(erc20.events().len(), before);
}

#[test]
fn balances_add_up_to_the_supply() {
    let mut erc20 = setup();
    let accounts = [get_account(0), get_account(1), get_account(2), get_account(3)];
    erc20.mint(&accounts[1], &Balance::from_u128(250));
    assert_eq!(sum_of_balances(&erc20, &accounts), INITIAL_SUPPLY + 250);
    assert_eq!(erc20.total_supply(), Balance::from_u128(INITIAL_SUPPLY + 250));
    assert_eq!(erc20.transfer(&accounts[0], &accounts[2], &Balance::from_u128(999)), Ok(()));
    assert_eq!(erc20.transfer(&accounts[2], &accounts[3], &Balance::from_u128(99)), Ok(()));
    assert_eq!(erc20.transfer(&accounts[3], &accounts[3], &Balance::from_u128(9)), Ok(()));
    assert_eq!(sum_of_balances(&erc20, &accounts), INITIAL_SUPPLY + 250);
    assert_eq!(erc20.burn(&accounts[1], &Balance::from_u128(50)), Ok(()));
    assert_eq!(erc20.burn(&accounts[2], &Balance::from_u128(900)), Ok(()));
    assert_eq!(sum_of_balances(&erc20, &accounts), INITIAL_SUPPLY + 250 - 950);
    assert_eq!(
        erc20.total_supply(),
        Balance::from_u128(INITIAL_SUPPLY + 250 - 950)
    );
    assert_eq!(
        erc20.transfer(&accounts[1], &accounts[0], &Balance::from_u128(201)),
        Err(Error::InsufficientBalance)
    );
    assert_eq!(sum_of_balances(&erc20, &accounts), INITIAL_SUPPLY + 250 - 950);
}

#[test]
fn take_events_empties_the_log() {
    let mut erc20 = setup();
    let (owner, spender) = (get_account(0), get_account(1));
    erc20.approve(&owner, &spender, &Balance::from_u128(1));
    let taken = erc20.take_events();
    assert_eq!(taken.len(), 2);
    assert!(erc20.events().is_empty());
    assert_eq!(erc20.allowance(&owner, &spender), Balance::from_u128(1));
    assert_eq!(erc20.total_supply(), Balance::from_u128(INITIAL_SUPPLY));
}

#[test]
fn mint_fits_up_to_the_largest_supply() {
    let mut erc20 = Erc20::init(
        &get_account(0),
        String::from("TOKEN"),
        String::from("TKN"),
        18u8,
        &U256::from_words(u64::MAX, u64::MAX, u64::MAX, u64::MAX - 1),
    );
    assert!(erc20.mint_fits(&U256::from_words(0, 0, 0, 1)));
    assert!(!erc20.mint_fits(&U256::from_words(1, 0, 0, 1)));
    erc20.mint(&get_account(1), &U256::from_words(0, 0, 0, 1));
    assert_eq!(erc20.total_supply(), U256::max_value());
    assert!(erc20.mint_fits(&U256::zero()));
    assert!(!erc20.mint_fits(&Balance::from_u128(1)));
}
