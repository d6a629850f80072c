# gex

Exposition au gamma des options sur futures : où la couverture des teneurs de marché pèse,
et dans quel sens. La bibliothèque est écrite en Verus : chaque fonction publique dit ce
qu'elle rend, et Verus le prouve.

## Ce qu'il y a dedans

| Module | Ce qu'il tient |
|---|---|
| `flottant`, `erreur`, `grand`, `decimal`, `fixe`, `court` | les nombres : binary64 défini sur les entiers, ce que l'arrondi garde, sa lecture et ses deux écritures |
| `texte`, `json`, `tri`, `calendrier` | les textes caractère par caractère, l'écriture JSON, un tri stable, les instants et les fuseaux |
| `coeur` | la chaîne, le temps restant, Black 76, les expositions, l'analyse |
| `ib` | ce qui décide des contrats à suivre, absorbe les ticks et assemble une chaîne |
| `collecte` | la session du collecteur, ses reprises, ses alertes |
| `store` | le format des relevés et des séries, l'historique, sa validation, les archives, les positions déclarées |
| `lecteur`, `ecran` | le rapport en texte, ce que l'écran demande et reçoit |
| `insider` | les déclarations d'initiés |

`app/` est du Rust ordinaire : la ligne de commande, les fichiers parquet, la passerelle
d'Interactive Brokers, le serveur local. Il exécute ce que la bibliothèque décide.

## Les nombres

Le calcul se fait en virgule flottante, donc les contrats aussi : `Flottant` porte les
soixante-quatre bits d'un binary64, et ses opérations sont définies comme l'arrondi au plus
proche du résultat exact. Le logarithme, l'exponentielle et la fonction d'erreur sont des
arguments : ce qui en dépend est énoncé pour toute fonction qui rend toujours le même
résultat sur le même nombre.

## Ce qui n'est pas prouvé

Les appels à `chrono`, `chrono-tz` et `serde_json`, et trois appels à la bibliothèque
standard, passent par des enveloppes dont le contrat est tenu pour vrai. Chacune dit, dans
son commentaire, quelle fonction elle appelle et ce qu'elle en affirme.
