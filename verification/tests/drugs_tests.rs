use gir::action::Action;
use gir::drugs::{BeerDice, DrugDice, Drugs, SmokeDice};

const GLASS: &str = "\x0315,15 \x0f";

fn dice(drop: usize, lucky: bool, brand: usize, temperature: usize, label: usize) -> DrugDice {
    DrugDice {
        drop,
        lucky,
        smoke: SmokeDice { first: 0, second: 1, puff: vec!['~', '~', ';', ':', '-'] },
        mug: vec![vec![' '; 9]; 7],
        beer: BeerDice { brand, temperature, label, lucky },
    }
}

fn sent(actions: &[Action]) -> Vec<String> {
    actions
        .iter()
        .filter_map(|a| match a {
            Action::Send(s) => Some(s.clone()),
            _ => None,
        })
        .collect()
}

#[test]
fn new_has_full_mug_and_fresh_cigarette() {
    let d = Drugs::new();
    assert!(!d.fat);
    assert_eq!(d.stats.hits, 25);
    assert_eq!(d.stats.sips, 8);
    assert_eq!(d.stats.chugged, 0);
}

#[test]
fn chug_draws_full_mug_then_drinks() {
    let mut d = Drugs::new();
    let out = d.apply_drugs_command("%chug", "#c", &dice(2, false, 0, 0, 0));
    let lines = sent(&out);
    assert_eq!(lines.len(), 9);
    let foam = format!("{}\x0315,00:::::::::\x0f{}", GLASS, GLASS);
    assert_eq!(lines[0], format!("PRIVMSG #c :{}\r\n", foam));
    let beer = format!("{}{}{}", GLASS, "\x0307,08 \x0f".repeat(9), GLASS);
    assert_eq!(lines[1], format!("PRIVMSG #c :{}\r\n", beer));
    assert_eq!(lines[2], format!("PRIVMSG #c :{}{}{}\r\n", beer, GLASS, GLASS));
    assert_eq!(lines[3], format!("PRIVMSG #c :{}  {}\r\n", beer, GLASS));
    assert_eq!(lines[8], "PRIVMSG #c :\x0315,15           \x0f\r\n");
    assert_eq!(d.stats.sips, 6);
}

#[test]
fn chug_empty_mug_is_refilled() {
    let mut d = Drugs::new();
    d.stats.sips = 0;
    let out = d.apply_drugs_command("%chug", "#c", &dice(1, false, 0, 0, 0));
    assert_eq!(sent(&out).len(), 9);
    assert_eq!(d.stats.chugged, 1);
    assert_eq!(d.stats.sips, 7);
}

#[test]
fn half_mug_is_empty_on_top() {
    let mut d = Drugs::new();
    d.stats.sips = 3;
    let out = d.apply_drugs_command("%chug", "#c", &dice(1, false, 0, 0, 0));
    let lines = sent(&out);
    let empty = format!("{}         {}", GLASS, GLASS);
    assert_eq!(lines[0], format!("PRIVMSG #c :{}\r\n", empty));
    assert_eq!(lines[4], format!("PRIVMSG #c :{}  {}\r\n", empty, GLASS));
    assert_eq!(d.stats.sips, 2);
}

#[test]
fn smoke_takes_a_hit() {
    let mut d = Drugs::new();
    let out = d.apply_drugs_command("%smoke", "#c", &dice(1, false, 0, 0, 0));
    let expected = format!(
        "PRIVMSG #c :\x0308,07;.`-,:.`;\x0f\x0308,08 \x0f\x0315,00{}\x0f\x0304,01\u{259A}\x0f\x0308,14\u{259A}\x0f\x0314-~~;:-\x0f\r\n",
        "|".repeat(25)
    );
    assert_eq!(sent(&out), vec![expected]);
    assert_eq!(d.stats.hits, 24);
}

#[test]
fn toke_rolls_a_joint() {
    let mut d = Drugs::new();
    d.stats.hits = 2;
    let out = d.apply_drugs_command("%toke", "#c", &dice(2, false, 0, 0, 0));
    let expected = "PRIVMSG #c :\x0315,00//\x0f\x0304,01\u{259A}\x0f\x0308,14\u{259A}\x0f\x0314-~~;:-\x0f\r\n";
    assert_eq!(sent(&out), vec![expected.to_string()]);
    assert_eq!(d.stats.hits, 0);
}

#[test]
fn finished_smoke_is_relit_silently() {
    let mut d = Drugs::new();
    d.stats.hits = 0;
    d.fat = true;
    let out = d.apply_drugs_command("%smoke", "#c", &dice(1, false, 0, 0, 0));
    assert!(out.is_empty());
    assert_eq!(d.stats.hits, 25);
    assert_eq!(d.stats.smoked, 1);
    assert!(!d.fat);
}

#[test]
fn fatfuck_triples_the_smoke() {
    let mut d = Drugs::new();
    let out = d.apply_drugs_command("%fatfuck", "#c", &dice(1, true, 0, 0, 0));
    assert_eq!(
        sent(&out),
        vec![
            "PRIVMSG #c :\x0304,03 !!! \x0f\x0301,03AWWW SHIT, IT'S TIME FOR THAT MARLBORO FATFUCK\x0f\x0304,03 !!! \x0f\r\n"
                .to_string()
        ]
    );
    assert!(d.fat);
    let out = d.apply_drugs_command("%smoke", "#c", &dice(1, false, 0, 0, 0));
    assert_eq!(sent(&out).len(), 3);
}

#[test]
fn newport_without_luck_does_nothing() {
    let mut d = Drugs::new();
    let out = d.apply_drugs_command("%100", "#c", &dice(1, false, 0, 0, 0));
    assert!(out.is_empty());
    assert_eq!(d.stats.hits, 25);
}

#[test]
fn newport_with_luck_is_a_hundred_long() {
    let mut d = Drugs::new();
    let out = d.apply_drugs_command("%100", "#c", &dice(1, true, 0, 0, 0));
    assert_eq!(
        sent(&out),
        vec!["PRIVMSG #c :\x0300,04 !!! \x0f\x0304,00AWWW SHIT, IT'S TIME FOR THAT NEWPORT 100\x0f\x0300,04 !!! \x0f\r\n".to_string()]
    );
    assert_eq!(d.stats.hits, 100);
}

#[test]
fn beer_thrown_at_target() {
    let mut d = Drugs::new();
    let out = d.apply_drugs_command("%beer bob", "#c", &dice(1, false, 1, 1, 0));
    assert_eq!(
        sent(&out),
        vec!["PRIVMSG #c :\x01ACTION throws \x0300bob\x0f an ice cold \x0307,07 \x0f\x0302,08Modelo\x0f\x0314,07c\x0f =)\x01\r\n".to_string()]
    );
}

#[test]
fn lucky_bud_brings_a_remark() {
    let mut d = Drugs::new();
    let out = d.apply_drugs_command("%beer", "#c", &dice(1, true, 0, 0, 1));
    assert_eq!(out.len(), 3);
    assert_eq!(
        out[0],
        Action::Send("PRIVMSG #c :\x01ACTION throws \x0300#c\x0f a piss warm \x0300,00 \x0f\x0300,05 BUD \x0f\x0314,00c\x0f =)\x01\r\n".to_string())
    );
    assert_eq!(out[1], Action::SleepSecs(2));
    assert_eq!(
        out[2],
        Action::Send("PRIVMSG #c :\x01ACTION suddenly feels more gay...\x01\r\n".to_string())
    );
}

#[test]
fn unknown_word_does_nothing() {
    let mut d = Drugs::new();
    let out = d.apply_drugs_command("%chugging", "#c", &dice(1, true, 0, 0, 0));
    assert!(out.is_empty());
    assert_eq!(d.stats.sips, 8);
}

#[test]
fn random_commands_stay_in_bounds() {
    let mut d = Drugs::new();
    for _ in 0..20 {
        let out = d.handle_drugs_command("%chug", "#c");
        assert_eq!(out.len(), 9);
        assert!(d.stats.sips <= 8);
    }
    let out = d.handle_drugs_command("%smoke", "#c");
    assert!(out.len() <= 3);
    assert!(d.stats.hits == 23 || d.stats.hits == 24);
    let out = d.handle_beer_command("bob", "#c");
    assert!(out.len() == 1 || out.len() == 3);
}

#[test]
fn drink_and_smoke_state_stays_valid() {
    let mut d = Drugs::new();
    let commands = ["%chug", "%smoke", "%toke", "%100", "%extendo", "%fatfuck", "%beer bob", "%chug"];
    for i in 0..400 {
        d.handle_drugs_command(commands[i % commands.len()], "#c");
        assert!(d.stats.sips <= 8);
        assert!(d.stats.hits <= 100);
        assert_eq!(d.stats.chain, 0);
    }
    let mut d = Drugs::new();
    for _ in 0..30 {
        d.apply_drugs_command("%100", "#c", &dice(2, true, 0, 0, 0));
        d.apply_drugs_command("%smoke", "#c", &dice(2, true, 0, 0, 0));
        assert!(d.stats.hits <= 100);
    }
}
