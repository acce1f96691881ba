use rust_scratch_pad::garden::{
    breaking_news, corrupt_vegtable, demo, notify, pluck_vegtable, ImportantExcerpt, NewsArticle,
    Summary,
};

#[test]
fn my_test1() {
    assert_eq!(2, 2);
}

#[test]
fn another() {
    struct MyStruct {
        x: i32,
        y: f64,
    }
    let my = MyStruct { x: 23, y: 23.0 };
    let a: &f64 = &my.y;
    let b = my.x as f64;
    assert_eq!(*a, b);
}

#[test]
fn it_works() -> Result<(), String> {
    if 2 + 2 == 4 {
        Ok(())
    } else {
        Err(String::from("two plus two does not equal four"))
    }
}

fn article() -> NewsArticle {
    NewsArticle {
        headline: String::from("Penguins win"),
        location: String::from("Pittsburgh"),
        author: String::from("Iceburgh"),
        content: String::from("The Penguins once again are the best."),
    }
}

#[test]
fn an_article_has_the_default_summary() {
    assert_eq!("Default summary implementation", article().summarize());
}

struct Tweet {
    text: String,
}

impl Summary for Tweet {
    fn summarize(&self) -> String {
        self.text.clone()
    }
}

#[test]
fn notify_announces_the_summary_and_the_excerpt() {
    let lines = notify(&article());
    assert_eq!(
        vec![
            "Breaking news! Default summary implementation".to_string(),
            "Attention please: some str".to_string(),
        ],
        lines
    );
    let lines = notify(&Tweet { text: String::from("hello") });
    assert_eq!("Breaking news! hello", lines[0]);
    assert_eq!("Attention please: some str", lines[1]);
}

#[test]
fn breaking_news_puts_the_headline_first() {
    assert_eq!("Breaking news! ", breaking_news(""));
    assert_eq!("Breaking news! rain", breaking_news("rain"));
}

#[test]
fn excerpt_announces_and_returns_its_part() {
    let excerpt = ImportantExcerpt { part: "Call me Ishmael" };
    let (line, part) = excerpt.announce_and_return_part("a quote");
    assert_eq!("Attention please: a quote", line);
    assert_eq!("Call me Ishmael", part);
}

#[test]
fn demo_hands_its_argument_back() {
    let s = String::from("hello");
    assert_eq!("hello", demo(&s));
    assert_eq!(&s, demo(&s));
}

#[test]
fn the_garden_is_quiet() {
    pluck_vegtable();
    corrupt_vegtable();
}
