pub mod lecteur;
pub mod nombres;
pub mod persistance;
pub mod protocole;
pub mod resp;
pub mod serveur;
pub mod store;
pub mod texte;
