//! Small connection-configuration, payment, notification, order and widget
//! types, each with its construction rules stated as contracts.

use vstd::prelude::*;

use vstd::string::StringExecFns;

verus! {

/// Ghost image of a connection configuration.
#[verifier::ext_equal]
pub struct DatabaseConfigView {
    pub host: Seq<char>,
    pub port: u16,
    pub database: Seq<char>,
    pub username: Seq<char>,
    pub password: Seq<char>,
    pub pool_size: usize,
    pub timeout_secs: u64,
}

/// A validated connection configuration: only `DatabaseConfigBuilder::build`
/// produces one, so the host is never empty and the port never zero.
#[derive(Debug)]
pub struct DatabaseConfig {
    host: String,
    port: u16,
    database: String,
    username: String,
    password: String,
    pool_size: usize,
    timeout_secs: u64,
}

impl View for DatabaseConfig {
    type V = DatabaseConfigView;

    closed spec fn view(&self) -> DatabaseConfigView {
        DatabaseConfigView {
            host: self.host@,
            port: self.port,
            database: self.database@,
            username: self.username@,
            password: self.password@,
            pool_size: self.pool_size,
            timeout_secs: self.timeout_secs,
        }
    }
}

/// Step-by-step construction of a `DatabaseConfig`, starting from common
/// defaults.
pub struct DatabaseConfigBuilder {
    host: String,
    port: u16,
    database: String,
    username: String,
    password: String,
    pool_size: usize,
    timeout_secs: u64,
}

impl View for DatabaseConfigBuilder {
    type V = DatabaseConfigView;

    closed spec fn view(&self) -> DatabaseConfigView {
        DatabaseConfigView {
            host: self.host@,
            port: self.port,
            database: self.database@,
            username: self.username@,
            password: self.password@,
            pool_size: self.pool_size,
            timeout_secs: self.timeout_secs,
        }
    }
}

impl DatabaseConfigBuilder {
    /// The default settings: a local connection with a small pool.
    pub fn new() -> (b: DatabaseConfigBuilder)
        ensures
            b@.host == "localhost"@,
            b@.port == 5432,
            b@.database == "postgres"@,
            b@.username == "user"@,
            b@.password == "password"@,
            b@.pool_size == 10,
            b@.timeout_secs == 30,
    {
        DatabaseConfigBuilder {
            host: "localhost".to_owned(),
            port: 5432,
            database: "postgres".to_owned(),
            username: "user".to_owned(),
            password: "password".to_owned(),
            pool_size: 10,
            timeout_secs: 30,
        }
    }

    /// Replaces the host.
    pub fn host(self, host: &str) -> (b: DatabaseConfigBuilder)
        ensures
            b@ == (DatabaseConfigView { host: host@, ..self@ }),
    {
        let ghost pre = self@;
        let mut b = self;
        b.host = host.to_owned();
        proof {
            assert(b@ =~= (DatabaseConfigView { host: host@, ..pre }));
        }
        b
    }

    /// Replaces the port.
    pub fn port(self, port: u16) -> (b: DatabaseConfigBuilder)
        ensures
            b@ == (DatabaseConfigView { port: port, ..self@ }),
    {
        let ghost pre = self@;
        let mut b = self;
        b.port = port;
        proof {
            assert(b@ =~= (DatabaseConfigView { port: port, ..pre }));
        }
        b
    }

    /// Replaces the database name.
    pub fn database(self, database: &str) -> (b: DatabaseConfigBuilder)
        ensures
            b@ == (DatabaseConfigView { database: database@, ..self@ }),
    {
        let ghost pre = self@;
        let mut b = self;
        b.database = database.to_owned();
        proof {
            assert(b@ =~= (DatabaseConfigView { database: database@, ..pre }));
        }
        b
    }

    /// Replaces the user name.
    pub fn username(self, username: &str) -> (b: DatabaseConfigBuilder)
        ensures
            b@ == (DatabaseConfigView { username: username@, ..self@ }),
    {
        let ghost pre = self@;
        let mut b = self;
        b.username = username.to_owned();
        proof {
            assert(b@ =~= (DatabaseConfigView { username: username@, ..pre }));
        }
        b
    }

    /// Replaces the password.
    pub fn password(self, password: &str) -> (b: DatabaseConfigBuilder)
        ensures
            b@ == (DatabaseConfigView { password: password@, ..self@ }),
    {
        let ghost pre = self@;
        let mut b = self;
        b.password = password.to_owned();
        proof {
            assert(b@ =~= (DatabaseConfigView { password: password@, ..pre }));
        }
        b
    }

    /// Replaces the pool size.
    pub fn pool_size(self, size: usize) -> (b: DatabaseConfigBuilder)
        ensures
            b@ == (DatabaseConfigView { pool_size: size, ..self@ }),
    {
        let ghost pre = self@;
        let mut b = self;
        b.pool_size = size;
        proof {
            assert(b@ =~= (DatabaseConfigView { pool_size: size, ..pre }));
        }
        b
    }

    /// Replaces the timeout.
    pub fn timeout_secs(self, secs: u64) -> (b: DatabaseConfigBuilder)
        ensures
            b@ == (DatabaseConfigView { timeout_secs: secs, ..self@ }),
    {
        let ghost pre = self@;
        let mut b = self;
        b.timeout_secs = secs;
        proof {
            assert(b@ =~= (DatabaseConfigView { timeout_secs: secs, ..pre }));
        }
        b
    }

    /// Validates and produces the configuration: succeeds exactly when the
    /// host is non-empty and the port is not zero, keeping every setting.
    pub fn build(self) -> (r: Result<DatabaseConfig, String>)
        ensures
            match r {
                Ok(c) => self@.host.len() > 0 && self@.port != 0 && c@ == self@,
                Err(e) => (self@.host.len() == 0 && e@ == "Host cannot be empty"@) || (self@.host.len()
                    > 0 && self@.port == 0 && e@ == "Port must be greater than 0"@),
            },
    {
        if self.host.as_str().is_empty() {
            return Err("Host cannot be empty".to_owned());
        }
        if self.port == 0 {
            return Err("Port must be greater than 0".to_owned());
        }
        let ghost pre = self@;
        let c = DatabaseConfig {
            host: self.host,
            port: self.port,
            database: self.database,
            username: self.username,
            password: self.password,
            pool_size: self.pool_size,
            timeout_secs: self.timeout_secs,
        };
        proof {
            assert(c@ =~= pre);
        }
        Ok(c)
    }
}

/// A credit card on file: number and verification code, kept as given.
#[derive(Debug)]
pub struct CreditCardPayment {
    card_number: String,
    cvv: String,
}

impl CreditCardPayment {
    /// Stores the card data unchanged; nothing is validated here.
    pub fn new(card_number: &str, cvv: &str) -> (p: CreditCardPayment)
        ensures
            p.spec_card_number() == card_number@,
            p.spec_cvv() == cvv@,
    {
        CreditCardPayment { card_number: card_number.to_owned(), cvv: cvv.to_owned() }
    }

    /// The stored card number.
    pub closed spec fn spec_card_number(self) -> Seq<char> {
        self.card_number@
    }

    /// The stored verification code.
    pub closed spec fn spec_cvv(self) -> Seq<char> {
        self.cvv@
    }

    /// A card is usable when the number has at least 13 digits' worth of
    /// characters and the code exactly three.
    pub fn validate(&self) -> (r: bool)
        ensures
            r == (self.spec_card_number().len() >= 13 && self.spec_cvv().len() == 3),
    {
        self.card_number.as_str().unicode_len() >= 13 && self.cvv.as_str().unicode_len() == 3
    }
}

/// A payment account addressed by e-mail.
#[derive(Debug)]
pub struct PayPalPayment {
    email: String,
}

impl PayPalPayment {
    /// Stores the address unchanged.
    pub fn new(email: &str) -> (p: PayPalPayment)
        ensures
            p.spec_email() == email@,
    {
        PayPalPayment { email: email.to_owned() }
    }

    /// The stored address.
    pub closed spec fn spec_email(self) -> Seq<char> {
        self.email@
    }

    /// An account is usable when the address holds an `@`.
    pub fn validate(&self) -> (r: bool)
        ensures
            r == self.spec_email().contains('@'),
    {
        let cs = crate::text::chars_vec(self.email.as_str());
        let n = cs.len();
        let mut i: usize = 0;
        while i < n
            invariant
                n == cs.len(),
                cs@ == self.spec_email(),
                0 <= i <= n,
                forall|k: int| 0 <= k < i ==> cs@[k] != '@',
            decreases n - i,
        {
            if cs[i] == '@' {
                return true;
            }
            i = i + 1;
        }
        false
    }
}

/// A wallet address and currency code for ledger payments.
#[derive(Debug)]
pub struct CryptoPayment {
    wallet_address: String,
    currency: String,
}

impl CryptoPayment {
    /// Stores wallet address and currency unchanged.
    pub fn new(wallet_address: &str, currency: &str) -> (p: CryptoPayment)
        ensures
            p.spec_wallet_address() == wallet_address@,
            p.spec_currency() == currency@,
    {
        CryptoPayment { wallet_address: wallet_address.to_owned(), currency: currency.to_owned() }
    }

    /// The stored wallet address.
    pub closed spec fn spec_wallet_address(self) -> Seq<char> {
        self.wallet_address@
    }

    /// The stored currency code.
    pub closed spec fn spec_currency(self) -> Seq<char> {
        self.currency@
    }

    /// A wallet is usable when its address has at least 26 characters.
    pub fn validate(&self) -> (r: bool)
        ensures
            r == (self.spec_wallet_address().len() >= 26),
    {
        self.wallet_address.as_str().unicode_len() >= 26
    }
}

/// A receiver of notifications: turns a message into the delivery line it
/// would send.
pub trait Observer {
    /// The delivery line for `message`.
    fn update(&self, message: &str) -> String;
}

/// Delivers notifications by e-mail.
#[derive(Debug)]
pub struct EmailSubscriber {
    email: String,
}

impl EmailSubscriber {
    /// Stores the address unchanged.
    pub fn new(email: &str) -> (s: EmailSubscriber)
        ensures
            s.spec_email() == email@,
    {
        EmailSubscriber { email: email.to_owned() }
    }

    /// The stored address.
    pub closed spec fn spec_email(self) -> Seq<char> {
        self.email@
    }
}

impl Observer for EmailSubscriber {
    fn update(&self, message: &str) -> String {
        "Email to ".to_owned().concat(self.email.as_str()).concat(": ").concat(message)
    }
}

/// Delivers notifications by text message.
#[derive(Debug)]
pub struct SmsSubscriber {
    phone: String,
}

impl SmsSubscriber {
    /// Stores the phone number unchanged.
    pub fn new(phone: &str) -> (s: SmsSubscriber)
        ensures
            s.spec_phone() == phone@,
    {
        SmsSubscriber { phone: phone.to_owned() }
    }

    /// The stored phone number.
    pub closed spec fn spec_phone(self) -> Seq<char> {
        self.phone@
    }
}

impl Observer for SmsSubscriber {
    fn update(&self, message: &str) -> String {
        "SMS to ".to_owned().concat(self.phone.as_str()).concat(": ").concat(message)
    }
}

/// Fans a message out to every subscribed observer.
pub struct EventPublisher {
    observers: Vec<Box<dyn Observer>>,
}

impl EventPublisher {
    /// The number of subscribed observers.
    pub closed spec fn spec_count(self) -> nat {
        self.observers@.len()
    }

    /// A publisher with no observers yet.
    pub fn new() -> (p: EventPublisher)
        ensures
            p.spec_count() == 0,
    {
        EventPublisher { observers: Vec::new() }
    }

    /// Adds one observer. Nothing is stated of the collection of trait
    /// objects itself: a later `notify` hands every stored observer's line
    /// back.
    pub fn subscribe(&mut self, observer: Box<dyn Observer>)
    {
        self.observers.push(observer);
    }

    /// Collects the delivery line of every observer for `message`, in
    /// subscription order: one line per observer.
    pub fn notify(&self, message: &str) -> (r: Vec<String>)
        ensures
            r@.len() == self.spec_count(),
    {
        let n = self.observers.len();
        let mut out: Vec<String> = Vec::new();
        let mut i: usize = 0;
        while i < n
            invariant
                n == self.observers@.len(),
                0 <= i <= n,
                out@.len() == i,
            decreases n - i,
        {
            let line = self.observers[i].update(message);
            out.push(line);
            i = i + 1;
        }
        out
    }
}

/// Progress of an order through its four stations.
pub trait OrderState {
    /// Display label of the station.
    fn get_status(&self) -> (r: String);
}

/// Station: received, not yet confirmed.
#[derive(Debug)]
pub struct PendingState;

impl OrderState for PendingState {
    fn get_status(&self) -> (r: String) {
        "⏳ Pending".to_owned()
    }
}

/// Station: confirmed, waiting for shipment.
#[derive(Debug)]
pub struct ConfirmedState;

impl OrderState for ConfirmedState {
    fn get_status(&self) -> (r: String) {
        "✅ Confirmed".to_owned()
    }
}

/// Station: on its way.
#[derive(Debug)]
pub struct ShippingState;

impl OrderState for ShippingState {
    fn get_status(&self) -> (r: String) {
        "🚚 Shipping".to_owned()
    }
}

/// Station: delivered; advancing further changes nothing.
#[derive(Debug)]
pub struct DeliveredState;

impl OrderState for DeliveredState {
    fn get_status(&self) -> (r: String) {
        "📦 Delivered".to_owned()
    }
}

/// The four stations, in order.
#[derive(Debug, Clone, Copy, PartialEq, Eq, Structural)]
enum Station {
    Pending,
    Confirmed,
    Shipping,
    Delivered,
}

/// An order together with its current station.
pub struct Order {
    id: String,
    station: Station,
}

impl Order {
    /// The stored order identifier.
    pub closed spec fn spec_id(self) -> Seq<char> {
        self.id@
    }

    /// Position of the current station: 0 pending, 1 confirmed, 2
    /// shipping, 3 delivered.
    pub closed spec fn spec_phase(self) -> int {
        match self.station {
            Station::Pending => 0,
            Station::Confirmed => 1,
            Station::Shipping => 2,
            Station::Delivered => 3,
        }
    }

    /// A fresh order starts pending.
    pub fn new(id: &str) -> (o: Order)
        ensures
            o.spec_id() == id@,
            o.spec_phase() == 0,
    {
        Order { id: id.to_owned(), station: Station::Pending }
    }

    /// Display label of the current station, exactly as the station type
    /// itself renders it.
    pub fn get_status(&self) -> (r: String)
        ensures
            self.spec_phase() == 0 ==> r@ == "⏳ Pending"@,
            self.spec_phase() == 1 ==> r@ == "✅ Confirmed"@,
            self.spec_phase() == 2 ==> r@ == "🚚 Shipping"@,
            self.spec_phase() == 3 ==> r@ == "📦 Delivered"@,
    {
        match self.station {
            Station::Pending => "⏳ Pending".to_owned(),
            Station::Confirmed => "✅ Confirmed".to_owned(),
            Station::Shipping => "🚚 Shipping".to_owned(),
            Station::Delivered => "📦 Delivered".to_owned(),
        }
    }

    /// Moves the order one station forward; a delivered order stays
    /// delivered.
    pub fn advance(&mut self)
        ensures
            final(self).spec_id() == old(self).spec_id(),
            old(self).spec_phase() < 3 ==> final(self).spec_phase() == old(self).spec_phase() + 1,
            old(self).spec_phase() == 3 ==> final(self).spec_phase() == 3,
    {
        self.station = match self.station {
            Station::Pending => Station::Confirmed,
            Station::Confirmed => Station::Shipping,
            Station::Shipping => Station::Delivered,
            Station::Delivered => Station::Delivered,
        };
    }
}

/// A drawable widget: renders itself as a line of text.
pub trait UIElement {
    /// The rendered line.
    fn render(&self) -> String;
}

/// A push button with a label.
#[derive(Debug)]
pub struct Button {
    pub label: String,
}

impl UIElement for Button {
    fn render(&self) -> String {
        "Button: ".to_owned().concat(self.label.as_str())
    }
}

/// A text input with a placeholder.
#[derive(Debug)]
pub struct TextInput {
    pub placeholder: String,
}

impl UIElement for TextInput {
    fn render(&self) -> String {
        "TextInput: ".to_owned().concat(self.placeholder.as_str())
    }
}

/// A checkbox with a label.
#[derive(Debug)]
pub struct Checkbox {
    pub label: String,
}

impl UIElement for Checkbox {
    fn render(&self) -> String {
        "Checkbox: ".to_owned().concat(self.label.as_str())
    }
}

/// Builds widgets behind the common `UIElement` face.
pub struct UIFactory;

impl UIFactory {
    /// A button with the given label.
    pub fn create_button(label: &str) -> Box<dyn UIElement> {
        Box::new(Button { label: label.to_owned() })
    }

    /// A text input with the given placeholder.
    pub fn create_text_input(placeholder: &str) -> Box<dyn UIElement> {
        Box::new(TextInput { placeholder: placeholder.to_owned() })
    }

    /// A checkbox with the given label.
    pub fn create_checkbox(label: &str) -> Box<dyn UIElement> {
        Box::new(Checkbox { label: label.to_owned() })
    }
}

/// Plain coffee, the base of every decorated cup.
#[derive(Debug)]
pub struct SimpleCoffee;

impl SimpleCoffee {
    /// The menu line of a plain cup.
    pub fn description(&self) -> (r: String)
        ensures
            r@ == "Simple Coffee"@,
    {
        "Simple Coffee".to_owned()
    }
}

} // verus!
